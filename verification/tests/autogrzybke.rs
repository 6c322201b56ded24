use std::sync::Arc;

use fosiaudio::autogrzybke::{interlude_count, Autogrzybke, AutogrzybkeRequest};
use fosiaudio::resource_catalogue::ResourceCatalogue;

fn catalogue() -> Arc<ResourceCatalogue> {
    let paths: Vec<String> = [
        "alice1.mp3",
        "bob1.mp3",
        "kurwa1.mp3",
        "lobby1.mp3",
        "unknown1.mp3",
        "silence1.mp3",
        "prefix1.mp3",
        "suffix1.mp3",
        "everyone1.mp3",
        "ready1.mp3",
    ]
    .iter()
    .map(|n| format!("/res/{}", n))
    .collect();
    Arc::new(ResourceCatalogue::from_paths("/res", &paths))
}

fn request(missing: &[&str]) -> AutogrzybkeRequest {
    AutogrzybkeRequest {
        missing: missing.iter().map(|m| m.to_string()).collect(),
        skip_lobby: false,
        skip_prefix: false,
        skip_suffix: false,
        skip_interlude: false,
    }
}

#[test]
fn ready_mode_resolves_everyone_then_ready() {
    let mut gen = Autogrzybke::new(catalogue(), 50, 50);
    let playlist = gen.generate_playlist(request(&[]));
    assert_eq!(
        playlist,
        vec!["/res/everyone1.mp3".to_string(), "/res/ready1.mp3".to_string()]
    );
}

#[test]
fn ready_mode_drops_unresolvable_tags() {
    let paths: Vec<String> = vec!["/res/everyone1.mp3".to_string()];
    let cat = Arc::new(ResourceCatalogue::from_paths("/res", &paths));
    let mut gen = Autogrzybke::new(cat, 50, 50);
    let playlist = gen.generate_playlist(request(&[]));
    assert_eq!(playlist, vec!["/res/everyone1.mp3".to_string()]);
}

#[test]
fn ready_mode_clears_last_missing() {
    let mut gen = Autogrzybke::new(catalogue(), 50, 50);
    gen.generate_playlist(request(&["alice"]));
    assert!(!gen.get_last_missing().is_empty());
    gen.generate_playlist(request(&[]));
    assert!(gen.get_last_missing().is_empty());
}

#[test]
fn waiting_mode_outputs_catalogue_paths_only() {
    let mut gen = Autogrzybke::new(catalogue(), 50, 50);
    let known: Vec<String> = [
        "alice1", "bob1", "kurwa1", "lobby1", "unknown1", "silence1", "prefix1", "suffix1",
        "everyone1", "ready1",
    ]
    .iter()
    .map(|n| format!("/res/{}.mp3", n))
    .collect();
    for _ in 0..10 {
        let playlist = gen.generate_playlist(request(&["alice", "bob"]));
        assert!(!playlist.is_empty());
        for p in &playlist {
            assert!(known.contains(p), "unexpected path {}", p);
        }
    }
}

#[test]
fn unknown_nickname_falls_back_to_unknown_tag() {
    let mut gen = Autogrzybke::new(catalogue(), 0, 0);
    let mut req = request(&["carol"]);
    req.skip_lobby = true;
    req.skip_interlude = true;
    let playlist = gen.generate_playlist(req);
    assert_eq!(playlist, vec!["/res/unknown1.mp3".to_string()]);
}

#[test]
fn last_missing_is_sorted_snapshot() {
    let mut gen = Autogrzybke::new(catalogue(), 50, 50);
    gen.generate_playlist(request(&["zeta", "alpha", "mid"]));
    assert_eq!(
        gen.get_last_missing(),
        vec!["alpha".to_string(), "mid".to_string(), "zeta".to_string()]
    );
    // Another non-empty call replaces the snapshot.
    gen.generate_playlist(request(&["bob"]));
    assert_eq!(gen.get_last_missing(), vec!["bob".to_string()]);
}

#[test]
fn interlude_formula_exact_values() {
    let expected = [0usize, 0, 0, 0, 0, 1, 1, 2, 2, 3];
    for n in 0..10 {
        assert_eq!(interlude_count(n, false), expected[n], "usage count {}", n);
        assert_eq!(interlude_count(n, true), 0);
    }
}

fn count_interludes(playlist: &[String]) -> usize {
    playlist.iter().filter(|p| p.as_str() == "/res/kurwa1.mp3").count()
}

#[test]
fn interlude_count_follows_usage_formula() {
    let mut gen = Autogrzybke::new(catalogue(), 0, 0);
    let now: i64 = 1_700_000_000_000;
    // For the n-th call in the window: max(0, (n - 1) / 2 - 1) interludes.
    let expected = [0usize, 0, 0, 0, 1, 1, 2];
    for n in 0..7 {
        let mut req = request(&["alice"]);
        req.skip_lobby = true;
        let playlist = gen.generate_playlist_at(req, now + n as i64);
        assert_eq!(count_interludes(&playlist), expected[n], "call {}", n + 1);
    }
}

#[test]
fn usage_window_forgets_old_calls() {
    let mut gen = Autogrzybke::new(catalogue(), 0, 0);
    let now: i64 = 1_700_000_000_000;
    for _ in 0..6 {
        gen.generate_playlist_at(request(&["alice"]), now);
    }
    // The seventh call within the window earns two interludes.
    let mut req = request(&["alice"]);
    req.skip_lobby = true;
    let playlist = gen.generate_playlist_at(req, now);
    assert_eq!(count_interludes(&playlist), 2);
    // Over fifteen minutes later the window is empty again.
    let later = now + 15 * 60 * 1000 + 1;
    let mut req = request(&["alice"]);
    req.skip_lobby = true;
    let playlist = gen.generate_playlist_at(req, later);
    assert_eq!(count_interludes(&playlist), 0);
}

#[test]
fn skip_interlude_suppresses_fillers() {
    let mut gen = Autogrzybke::new(catalogue(), 0, 0);
    let now: i64 = 1_700_000_000_000;
    for n in 0..8 {
        let mut req = request(&["alice"]);
        req.skip_lobby = true;
        req.skip_interlude = true;
        let playlist = gen.generate_playlist_at(req, now + n);
        assert_eq!(count_interludes(&playlist), 0);
    }
}

#[test]
fn certain_bumpers_wrap_the_nickname() {
    let mut gen = Autogrzybke::new(catalogue(), 100, 100);
    let mut req = request(&["alice"]);
    req.skip_lobby = true;
    req.skip_interlude = true;
    let playlist = gen.generate_playlist_at(req, 1_700_000_000_000);
    // silence, prefix, alice, suffix, silence, in some shuffled group order,
    // but with one group there is only one order.
    assert_eq!(
        playlist,
        vec![
            "/res/silence1.mp3".to_string(),
            "/res/prefix1.mp3".to_string(),
            "/res/alice1.mp3".to_string(),
            "/res/suffix1.mp3".to_string(),
            "/res/silence1.mp3".to_string(),
        ]
    );
}

#[test]
fn zero_chance_bumpers_never_trigger() {
    let mut gen = Autogrzybke::new(catalogue(), 0, 0);
    let mut req = request(&["alice"]);
    req.skip_lobby = false;
    req.skip_interlude = true;
    let playlist = gen.generate_playlist_at(req, 1_700_000_000_000);
    assert_eq!(
        playlist,
        vec!["/res/alice1.mp3".to_string(), "/res/lobby1.mp3".to_string()]
    );
}
