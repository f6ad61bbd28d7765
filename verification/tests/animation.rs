use imp_tui::animation::{format_elapsed, format_elapsed_secs};
use std::time::Duration;

#[test]
fn elapsed_formats_seconds_and_minutes() {
    assert_eq!(format_elapsed(Duration::from_secs(7)), "7s");
    assert_eq!(format_elapsed(Duration::from_secs(75)), "1m15s");
}

#[test]
fn elapsed_pads_seconds_after_minutes() {
    assert_eq!(format_elapsed_secs(125), "2m05s");
    assert_eq!(format_elapsed_secs(60), "1m00s");
    assert_eq!(format_elapsed_secs(59), "59s");
}

#[test]
fn elapsed_drops_subsecond_part() {
    assert_eq!(format_elapsed(Duration::from_millis(7_900)), "7s");
}
