use std::time::Duration;
use termviai::chrome::{content_inset, frame_interval, frame_interval_nanos};

#[test]
fn tiny_panes_always_retain_a_terminal_row() {
    assert_eq!(content_inset(0, 2), 0);
    assert_eq!(content_inset(1, 2), 0);
    assert_eq!(content_inset(2, 2), 1);
    assert_eq!(content_inset(24, 2), 2);
    assert_eq!(content_inset(24, 0), 0);
}

#[test]
fn frame_interval_is_nonzero_and_respects_the_window_limit() {
    assert_eq!(frame_interval(0), Duration::from_secs(1));
    assert_eq!(frame_interval(1), Duration::from_secs(1));
    assert_eq!(frame_interval(30), Duration::from_secs_f64(1. / 30.));
    assert_eq!(frame_interval(60), Duration::from_secs_f64(1. / 60.));
    assert_eq!(frame_interval(u64::MAX), frame_interval(60));
}

#[test]
fn frame_interval_rounds_to_the_nearest_nanosecond() {
    assert_eq!(frame_interval_nanos(60), 16_666_667);
    assert_eq!(frame_interval_nanos(30), 33_333_333);
    assert_eq!(frame_interval_nanos(7), 142_857_143);
    assert_eq!(frame_interval(7), Duration::from_nanos(142_857_143));
}
