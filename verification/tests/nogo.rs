use launchcast::nogo::{nogo_decision, NogoReason};
use launchcast::packet::Sensor;

/// Below this, arming is refused.
const NOGO_BATT_V: f32 = 3.80;

fn reason(batt_volts: f32, sensors: u8) -> Option<NogoReason> {
    nogo_decision(batt_volts < NOGO_BATT_V, sensors)
}

#[test]
fn healthy_telemetry_is_not_nogo() {
    assert_eq!(reason(4.0, 0), None);
}

#[test]
fn low_battery_is_nogo() {
    assert_eq!(reason(NOGO_BATT_V - 0.01, 0), Some(NogoReason::LowBattery));
}

#[test]
fn battery_at_the_threshold_is_not_nogo() {
    assert_eq!(reason(NOGO_BATT_V, 0), None);
}

#[test]
fn charging_is_nogo() {
    assert_eq!(reason(4.0, Sensor::CHG), Some(NogoReason::Charging));
}

#[test]
fn low_battery_takes_priority_over_charging() {
    assert_eq!(reason(NOGO_BATT_V - 0.01, Sensor::CHG), Some(NogoReason::LowBattery));
}

#[test]
fn messages_are_distinct_and_labeled_no_go() {
    assert!(NogoReason::LowBattery.message().contains("NO GO"));
    assert!(NogoReason::Charging.message().contains("NO GO"));
    assert_ne!(NogoReason::LowBattery.message(), NogoReason::Charging.message());
}

#[test]
fn other_sensor_bits_do_not_matter() {
    assert_eq!(nogo_decision(false, Sensor::ALL), None);
    assert_eq!(nogo_decision(false, Sensor::ALL | Sensor::CHG), Some(NogoReason::Charging));
}
