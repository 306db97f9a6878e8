use launchcast::civil::{civil_from_days, days_from_civil};

#[test]
fn days_from_civil_known_dates() {
    assert_eq!(days_from_civil(1970, 1, 1), 0);
    assert_eq!(days_from_civil(2000, 1, 1), 10_957);
    assert_eq!(days_from_civil(2000, 3, 1), 11_017);
    assert_eq!(days_from_civil(1969, 12, 31), -1);
    assert_eq!(days_from_civil(2026, 8, 19), 20_684);
}

#[test]
fn civil_from_days_known_days() {
    assert_eq!(civil_from_days(0), (1970, 1, 1));
    assert_eq!(civil_from_days(-1), (1969, 12, 31));
    assert_eq!(civil_from_days(11_016), (2000, 2, 29));
    assert_eq!(civil_from_days(20_684), (2026, 8, 19));
}

#[test]
fn leap_days_round_trip() {
    for (y, m, d) in [(2000, 2, 29), (2024, 2, 29), (1900, 3, 1), (2100, 2, 28), (1600, 12, 31)] {
        assert_eq!(civil_from_days(days_from_civil(y, m, d)), (y, m, d));
    }
}

#[test]
fn far_dates_do_not_overflow() {
    let z = days_from_civil(i32::MIN + 400, 6, 15);
    assert_eq!(civil_from_days(z), (i32::MIN + 400, 6, 15));
    let z = days_from_civil(i32::MAX, 12, 31);
    assert_eq!(civil_from_days(z), (i32::MAX, 12, 31));
}
