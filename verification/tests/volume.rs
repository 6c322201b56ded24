use fosiaudio::volume_controler::VolumeControler;
use fosiaudio::volume_controller::{parse_volume_output, VolumeController};

#[test]
fn parses_the_volume_group() {
    let output = "Simple mixer control 'SoftMaster',0\n  Front Left: 49152 [75%] [on]\n";
    assert_eq!(parse_volume_output(output), Some(75));
}

#[test]
fn parses_the_first_group_only() {
    assert_eq!(parse_volume_output("[12%] [34%]"), Some(12));
}

#[test]
fn rejects_output_without_the_group() {
    assert_eq!(parse_volume_output("no percentage here"), None);
    assert_eq!(parse_volume_output("[%]"), None);
    assert_eq!(parse_volume_output("[12%"), None);
    assert_eq!(parse_volume_output("12%]"), None);
}

#[test]
fn skips_malformed_groups_before_a_real_one() {
    assert_eq!(parse_volume_output("[x%] [0%]"), Some(0));
}

#[test]
fn rejects_values_beyond_the_int_range() {
    assert_eq!(parse_volume_output("[99999999999999999999%]"), None);
    assert_eq!(parse_volume_output("[2147483647%]"), Some(2147483647));
}

#[test]
fn change_volume_clamps_to_percent_scale() {
    let c = VolumeController::new();
    assert_eq!(c.change_volume(50, 30), 80);
    assert_eq!(c.change_volume(90, 30), 100);
    assert_eq!(c.change_volume(10, -30), 0);
    assert_eq!(c.change_volume(0, 0), 0);
    assert_eq!(c.change_volume(100, 0), 100);
    assert_eq!(c.change_volume(i32::MAX, i32::MAX), 100);
    assert_eq!(c.change_volume(i32::MIN, -1), 0);
}

#[test]
fn older_spelling_clamps_the_same_way() {
    let c = VolumeControler::new();
    assert_eq!(c.change_volume(50, 30), 80);
    assert_eq!(c.change_volume(90, 30), 100);
    assert_eq!(c.change_volume(10, -30), 0);
}
