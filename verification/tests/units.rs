use launchcast::units::Units;

#[test]
fn imperial_is_the_default() {
    assert_eq!(Units::default(), Units::Imperial);
}

#[test]
fn temperature_and_distance_follow_units_switch() {
    assert_eq!(Units::Imperial.temperature_label(), "F");
    assert_eq!(Units::Imperial.distance_label(), "ft");
    assert_eq!(Units::Metric.temperature_label(), "C");
    assert_eq!(Units::Metric.distance_label(), "m");
}
