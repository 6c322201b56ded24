use std::sync::Arc;

use fosiaudio::resource_catalogue::ResourceCatalogue;
use fosiaudio::schedule::{naive_events, Scheduler};

fn catalogue() -> Arc<ResourceCatalogue> {
    let paths: Vec<String> = vec![
        "/res/noise1.mp3".to_string(),
        "/res/idziemy_na_jednego1.mp3".to_string(),
    ];
    Arc::new(ResourceCatalogue::from_paths("/res", &paths))
}

const DAY: i64 = 86_400_000;

#[test]
fn half_hour_steps_until_end_of_day() {
    // Starting at 22:00, stepping by 30 minutes until 23:59 gives exactly
    // 22:00, 22:30, 23:00 and 23:30.
    let day: i64 = 19_676 * DAY;
    let now = day + 22 * 3_600_000;
    let events = naive_events(now, 30 * 60_000, 23 * 3_600_000 + 59 * 60_000);
    assert_eq!(
        events,
        vec![
            now,
            now + 30 * 60_000,
            now + 60 * 60_000,
            now + 90 * 60_000,
        ]
    );
}

#[test]
fn steps_stop_at_the_deadline_exactly() {
    let day: i64 = 19_676 * DAY;
    let now = day + 23 * 3_600_000;
    // 23:00 stepping by 30 minutes until 23:30: the last step lands exactly
    // on the deadline and is included.
    let events = naive_events(now, 30 * 60_000, 23 * 3_600_000 + 30 * 60_000);
    assert_eq!(events, vec![now, now + 30 * 60_000]);
}

#[test]
fn start_past_the_deadline_yields_nothing() {
    let day: i64 = 19_676 * DAY;
    let now = day + 23 * 3_600_000;
    let events = naive_events(now, 60_000, 22 * 3_600_000);
    assert!(events.is_empty());
}

// 2030-06-15T12:00:00Z and one instant a year earlier, as epoch ms.
const FUTURE_MS: i64 = 1_907_755_200_000;
const PAST_MS: i64 = FUTURE_MS - 365 * DAY;

fn schedule_text() -> String {
    "- 2030-06-15T12:00:00+00:00\n- 2029-06-15T12:00:00+00:00\n".to_string()
}

#[test]
fn set_schedule_drops_past_instants() {
    let mut s = Scheduler::new(catalogue());
    let now = PAST_MS + 1000;
    s.set_schedule_at(&schedule_text(), now).unwrap();
    // The past instant was dropped: nothing is due before the future one.
    assert!(s.on_tick(FUTURE_MS - 1).is_none());
    assert!(s.on_tick(FUTURE_MS).is_some());
}

#[test]
fn malformed_schedule_text_is_rejected_and_keeps_the_schedule() {
    let mut s = Scheduler::new(catalogue());
    s.set_schedule_at(&schedule_text(), PAST_MS - DAY).unwrap();
    assert!(s.set_schedule_at("no yaml timestamps here", FUTURE_MS).is_err());
    // The prior schedule still fires.
    assert!(s.on_tick(PAST_MS).is_some());
}

#[test]
fn empty_schedule_serializes_as_sentinel() {
    let s = Scheduler::new(catalogue());
    assert_eq!(s.get_serialized_schedule().unwrap(), "nie idziemy :(");
}

#[test]
fn populated_schedule_serializes_as_text() {
    let mut s = Scheduler::new(catalogue());
    s.set_schedule_at(&schedule_text(), PAST_MS - DAY).unwrap();
    let text = s.get_serialized_schedule().unwrap();
    assert_ne!(text, "nie idziemy :(");
    assert!(text.contains("20"));
}

#[test]
fn due_event_fires_within_grace_window() {
    let mut s = Scheduler::new(catalogue());
    s.set_schedule_at(&schedule_text(), PAST_MS - DAY).unwrap();
    let playlist = s.on_tick(PAST_MS + 60_000).unwrap();
    assert_eq!(
        playlist,
        vec![
            "/res/noise1.mp3".to_string(),
            "/res/idziemy_na_jednego1.mp3".to_string(),
        ]
    );
}

#[test]
fn late_event_is_dropped_silently_but_removed() {
    let mut s = Scheduler::new(catalogue());
    s.set_schedule_at(&schedule_text(), PAST_MS - DAY).unwrap();
    // More than a minute late: no playback, but the event is consumed.
    assert!(s.on_tick(PAST_MS + 60_001).is_none());
    // The next tick sees only the future event.
    assert!(s.on_tick(FUTURE_MS - 1).is_none());
    assert!(s.on_tick(FUTURE_MS + 1).is_some());
}

#[test]
fn due_event_is_removed_exactly_once() {
    let mut s = Scheduler::new(catalogue());
    s.set_schedule_at("- 2030-06-15T12:00:00+00:00\n", PAST_MS).unwrap();
    assert!(s.on_tick(FUTURE_MS).is_some());
    // Fired once; later ticks find an empty schedule.
    assert!(s.on_tick(FUTURE_MS).is_none());
    assert!(s.on_tick(FUTURE_MS + 500).is_none());
    assert_eq!(s.get_serialized_schedule().unwrap(), "nie idziemy :(");
}

#[test]
fn generation_past_the_deadline_is_ok_and_empty() {
    let mut s = Scheduler::new(catalogue());
    let day: i64 = 19_676 * DAY;
    let now = day + 23 * 3_600_000;
    s.generate_schedule_at(60_000, 22 * 3_600_000, now).unwrap();
    assert_eq!(s.get_serialized_schedule().unwrap(), "nie idziemy :(");
}

#[test]
fn generate_schedule_replaces_the_schedule() {
    let mut s = Scheduler::new(catalogue());
    let day: i64 = 19_676 * DAY;
    let now = day + 22 * 3_600_000;
    s.generate_schedule_at(30 * 60_000, 23 * 3_600_000 + 59 * 60_000, now)
        .unwrap();
    let text = s.get_serialized_schedule().unwrap();
    assert_ne!(text, "nie idziemy :(");
}
