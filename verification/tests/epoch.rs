use launchcast::epoch::{capture_once, EpochOffset};
use launchcast::nmea::UtcDateTime;

fn dt() -> UtcDateTime {
    UtcDateTime { year: 2026, month: 8, day: 19, hour: 17, minute: 30, second: 0, millis: 0 }
}

#[test]
fn wall_clock_at_capture_moment_equals_the_fix() {
    let offset = EpochOffset::capture(&dt(), 12_345);
    assert_eq!(offset.wall_clock_ms(12_345), 1_787_160_600_000);
}

#[test]
fn wall_clock_advances_with_the_monotonic_clock() {
    let offset = EpochOffset::capture(&dt(), 12_345);
    assert_eq!(offset.wall_clock_ms(12_345 + 5_000), 1_787_160_600_000 + 5_000);
}

#[test]
fn capturing_at_zero_still_works() {
    let offset = EpochOffset::capture(&dt(), 0);
    assert_eq!(offset.wall_clock_ms(0), 1_787_160_600_000);
    assert_eq!(offset.wall_clock_ms(1_000), 1_787_160_601_000);
}

#[test]
fn reference_is_captured_once_and_kept() {
    assert_eq!(capture_once(None, None, 5), None);
    let first = capture_once(None, Some(dt()), 1_000).unwrap();
    assert_eq!(first.wall_clock_ms(1_000), 1_787_160_600_000);
    let later = UtcDateTime { year: 2030, month: 1, day: 1, hour: 0, minute: 0, second: 0, millis: 0 };
    let kept = capture_once(Some(first), Some(later), 9_000).unwrap();
    assert_eq!(kept, first);
}

#[test]
fn consistent_fixes_capture_the_same_reference() {
    let later = UtcDateTime { second: 5, ..dt() };
    assert_eq!(EpochOffset::capture(&dt(), 1000), EpochOffset::capture(&later, 6000));
    assert_ne!(EpochOffset::capture(&dt(), 1000), EpochOffset::capture(&later, 5000));
}
