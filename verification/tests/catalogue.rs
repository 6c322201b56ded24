use fosiaudio::resource_catalogue::{key_from_path, ResourceCatalogue};

#[test]
fn key_from_path_test() {
    assert_eq!(key_from_path("/dir1/file1.mp3", "/dir2"), None);
    assert_eq!(key_from_path("/dir/hypys1.mp3", "/dir").unwrap(), "hypys");
    assert_eq!(key_from_path("/dir/no_ext1", "/dir").unwrap(), "no_ext");
    assert_eq!(key_from_path("/dir/no_num.mp3", "/dir").unwrap(), "no_num");
    assert_eq!(key_from_path("/alpinus41.mp3", "/").unwrap(), "alpinus");
    assert_eq!(key_from_path("/dir/sub/f1.mp3", "/dir").unwrap(), "sub/f");
    assert_eq!(
        key_from_path("/dir/CAPITAL12.mp3", "/dir").unwrap(),
        "capital"
    );
}

fn sample_catalogue() -> ResourceCatalogue {
    let paths: Vec<String> = vec![
        "/res/alice1.mp3".to_string(),
        "/res/alice2.mp3".to_string(),
        "/res/bob1.mp3".to_string(),
        "/res/notes.txt".to_string(),
    ];
    ResourceCatalogue::from_paths("/res", &paths)
}

#[test]
fn random_sample_returns_pool_member() {
    let cat = sample_catalogue();
    for _ in 0..20 {
        let p = cat.random_sample("alice").unwrap();
        assert!(p == "/res/alice1.mp3" || p == "/res/alice2.mp3");
    }
    assert_eq!(cat.random_sample("bob").unwrap(), "/res/bob1.mp3");
}

#[test]
fn random_sample_is_case_insensitive() {
    let cat = sample_catalogue();
    assert_eq!(cat.random_sample("BOB").unwrap(), "/res/bob1.mp3");
    assert_eq!(cat.random_sample("Bob").unwrap(), "/res/bob1.mp3");
}

#[test]
fn random_sample_misses_absent_tag() {
    let cat = sample_catalogue();
    assert_eq!(cat.random_sample("carol"), None);
}

#[test]
fn keys_strip_digits_and_extension() {
    // alice1 and alice2 land in one pool under the key "alice".
    let cat = sample_catalogue();
    assert!(cat.random_sample("alice").is_some());
    // The text file is catalogued under its own key, digits stripped.
    assert_eq!(cat.random_sample("notes").unwrap(), "/res/notes.txt");
}

#[test]
fn list_files_is_sorted_and_audio_only() {
    let cat = sample_catalogue();
    let files = cat.list_files();
    assert_eq!(
        files,
        vec![
            "/res/alice1.mp3".to_string(),
            "/res/alice2.mp3".to_string(),
            "/res/bob1.mp3".to_string(),
        ]
    );
}

#[test]
fn empty_catalogue_lists_nothing() {
    let cat = ResourceCatalogue::new();
    assert!(cat.list_files().is_empty());
    assert_eq!(cat.random_sample("anything"), None);
}
