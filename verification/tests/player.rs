use fosiaudio::player::{
    render_playlist_manifest, PlayAction, PlayerState, ToggleAction,
};

#[test]
fn play_twice_spawns_exactly_once() {
    let mut state = PlayerState::Paused;
    let mut spawns = 0;
    for _ in 0..2 {
        match state.play("radio") {
            PlayAction::SpawnOnly => {
                spawns += 1;
                state.note_spawned("radio".to_string());
            }
            PlayAction::PauseThenSpawn => {
                state.note_killed();
                spawns += 1;
                state.note_spawned("radio".to_string());
            }
            PlayAction::AlreadyPlaying => {}
        }
    }
    assert_eq!(spawns, 1);
}

#[test]
fn play_of_another_source_supersedes() {
    let mut state = PlayerState::Paused;
    assert!(matches!(state.play("a"), PlayAction::SpawnOnly));
    state.note_spawned("a".to_string());
    assert!(matches!(state.play("a"), PlayAction::AlreadyPlaying));
    assert!(matches!(state.play("b"), PlayAction::PauseThenSpawn));
    state.note_killed();
    state.note_spawned("b".to_string());
    assert!(matches!(state.play("b"), PlayAction::AlreadyPlaying));
}

#[test]
fn toggle_alternates_deterministically() {
    let mut state = PlayerState::Paused;
    for _ in 0..3 {
        // Paused -> Playing(x)
        match state.toggle_play("x") {
            ToggleAction::SpawnOnly => state.note_spawned("x".to_string()),
            _ => panic!("expected a spawn from the paused state"),
        }
        // Playing(x) -> Paused
        match state.toggle_play("x") {
            ToggleAction::PauseOnly => state.note_killed(),
            _ => panic!("expected a pause while playing the same source"),
        }
    }
    assert!(!state.pause());
}

#[test]
fn toggle_of_another_source_switches_to_it() {
    let mut state = PlayerState::Paused;
    state.note_spawned("a".to_string());
    match state.toggle_play("b") {
        ToggleAction::PauseThenSpawn => {
            state.note_killed();
            state.note_spawned("b".to_string());
        }
        _ => panic!("expected a switch to the other source"),
    }
    assert!(matches!(state.toggle_play("b"), ToggleAction::PauseOnly));
}

#[test]
fn pause_kills_only_while_playing() {
    let mut state = PlayerState::Paused;
    assert!(!state.pause());
    state.note_spawned("x".to_string());
    assert!(state.pause());
    state.note_killed();
    assert!(!state.pause());
}

#[test]
fn manifest_lists_each_path_on_its_own_line() {
    let paths = vec!["/a/one.mp3".to_string(), "/b/two.mp3".to_string()];
    let manifest = render_playlist_manifest(&paths);
    assert_eq!(manifest, "file /a/one.mp3\nfile /b/two.mp3\n");
}

#[test]
fn empty_manifest_is_empty_text() {
    let manifest = render_playlist_manifest(&Vec::new());
    assert_eq!(manifest, "");
}
