//! The ground station's own "is it safe to send ARM" gate: a payload on
//! a low battery, or on a charger, must not be armed. This is on top of
//! the rocket's own refusal for missing peripherals.
use vstd::prelude::*;
use crate::packet::Sensor;

verus! {

#[derive(Debug, Clone, Copy, PartialEq, Eq, Structural)]
pub enum NogoReason {
    LowBattery,
    Charging,
}

/// The banner shown for `r`.
pub open spec fn nogo_message(r: NogoReason) -> &'static str {
    match r {
        NogoReason::LowBattery => "*** PAYLOAD BATT LOW -- NO GO ***",
        NogoReason::Charging => "*** PAYLOAD CHARGING -- NO GO ***",
    }
}

impl NogoReason {
    pub fn message(self) -> (r: &'static str)
        ensures
            r == nogo_message(self),
    {
        match self {
            NogoReason::LowBattery => "*** PAYLOAD BATT LOW -- NO GO ***",
            NogoReason::Charging => "*** PAYLOAD CHARGING -- NO GO ***",
        }
    }
}

/// Why arming is refused, if it is: a low battery first, then the
/// charging bit of `sensors`.
pub open spec fn nogo_of(low_battery: bool, sensors: u8) -> Option<NogoReason> {
    if low_battery {
        Some(NogoReason::LowBattery)
    } else if sensors & Sensor::CHG != 0 {
        Some(NogoReason::Charging)
    } else {
        None
    }
}

/// Whether the payload's telemetry rules out sending ARM, given whether
/// its battery reads below the threshold and its sensor bits. `None`
/// means there is no reason to refuse. A low battery takes priority over
/// charging when both apply.
pub fn nogo_decision(low_battery: bool, sensors: u8) -> (r: Option<NogoReason>)
    ensures
        r == nogo_of(low_battery, sensors),
{
    if low_battery {
        Some(NogoReason::LowBattery)
    } else if sensors & Sensor::CHG != 0 {
        Some(NogoReason::Charging)
    } else {
        None
    }
}

} // verus!
