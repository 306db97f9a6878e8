use launchcast::icons::{battery_level_of_percent, signal_level, signal_percent};

#[test]
fn signal_level_none_is_zero_bars() {
    assert_eq!(signal_level(None), 0);
}

#[test]
fn signal_level_buckets() {
    assert_eq!(signal_level(Some(-30)), 4);
    assert_eq!(signal_level(Some(-50)), 4);
    assert_eq!(signal_level(Some(-51)), 3);
    assert_eq!(signal_level(Some(-70)), 3);
    assert_eq!(signal_level(Some(-71)), 2);
    assert_eq!(signal_level(Some(-90)), 2);
    assert_eq!(signal_level(Some(-91)), 1);
    assert_eq!(signal_level(Some(-110)), 1);
    assert_eq!(signal_level(Some(-111)), 0);
    assert_eq!(signal_level(Some(-140)), 0);
}

#[test]
fn signal_percent_matches_level_times_25() {
    for rssi in [None, Some(-30), Some(-55), Some(-75), Some(-95), Some(-140)] {
        assert_eq!(signal_percent(rssi), signal_level(rssi) as u16 * 25);
    }
}

#[test]
fn signal_percent_exact_values() {
    assert_eq!(signal_percent(Some(-30)), 100);
    assert_eq!(signal_percent(Some(-75)), 50);
    assert_eq!(signal_percent(None), 0);
}

#[test]
fn battery_bars_floors_are_exclusive() {
    assert_eq!(battery_level_of_percent(100), 4);
    assert_eq!(battery_level_of_percent(81), 4);
    assert_eq!(battery_level_of_percent(80), 3);
    assert_eq!(battery_level_of_percent(61), 3);
    assert_eq!(battery_level_of_percent(60), 2);
    assert_eq!(battery_level_of_percent(41), 2);
    assert_eq!(battery_level_of_percent(40), 1);
    assert_eq!(battery_level_of_percent(21), 1);
    assert_eq!(battery_level_of_percent(20), 0);
    assert_eq!(battery_level_of_percent(0), 0);
    assert_eq!(battery_level_of_percent(255), 4);
}
