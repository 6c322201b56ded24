use fosiaudio::benny::{Benny, BennyError};
use fosiaudio::request_form::{get_value_from_form_body, RequestBodyError};
use fosiaudio::strutil::sort_strings;

#[test]
fn reads_the_named_value() {
    let body = b"stream_url=http%3A%2F%2Fradio%2Fstream&volume_delta=5";
    let url = get_value_from_form_body(body, "stream_url").unwrap();
    assert_eq!(url, "http://radio/stream");
    let delta = get_value_from_form_body(body, "volume_delta").unwrap();
    assert_eq!(delta, "5");
}

#[test]
fn decodes_percent_escapes_and_plus() {
    let body = b"missing=alice%20bob+carol";
    let value = get_value_from_form_body(body, "missing").unwrap();
    assert_eq!(value, "alice bob carol");
}

#[test]
fn empty_body_is_rejected() {
    let r = get_value_from_form_body(b"", "stream_url");
    assert!(matches!(r, Err(RequestBodyError::EmptyBody)));
}

#[test]
fn missing_name_is_rejected() {
    let r = get_value_from_form_body(b"other=1", "stream_url");
    match r {
        Err(RequestBodyError::NameNotFound(name)) => assert_eq!(name, "stream_url"),
        _ => panic!("expected the name-not-found error"),
    }
}

#[test]
fn first_value_of_a_repeated_name_wins() {
    let body = b"playlist=first&playlist=second";
    let value = get_value_from_form_body(body, "playlist").unwrap();
    assert_eq!(value, "first");
}

#[test]
fn toggle_without_a_file_is_rejected() {
    let benny = Benny::new(None);
    assert!(matches!(
        benny.toggle(),
        Err(BennyError::ResourcesUnavailable)
    ));
}

#[test]
fn toggle_draws_a_seek_below_thirty_seconds() {
    let benny = Benny::new(Some("/res/benny.mp3".to_string()));
    for _ in 0..20 {
        let (path, seek) = benny.toggle().unwrap();
        assert_eq!(path, "/res/benny.mp3");
        assert!((0..30_000).contains(&seek));
    }
}

#[test]
fn sort_strings_orders_by_code_point() {
    let mut v = vec![
        "pear".to_string(),
        "apple".to_string(),
        "apple".to_string(),
        "Banana".to_string(),
    ];
    sort_strings(&mut v);
    assert_eq!(
        v,
        vec![
            "Banana".to_string(),
            "apple".to_string(),
            "apple".to_string(),
            "pear".to_string(),
        ]
    );
}
