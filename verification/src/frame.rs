//! What the screens read off the latest telemetry frame (when there is
//! one): whether the rocket is armed, whether RECOVER applies, whether
//! its payload is charging, and whether arming is refused.
use vstd::prelude::*;
use crate::nogo::{nogo_decision, nogo_of, NogoReason};
use crate::packet::{Sensor, State, Telemetry};

verus! {

/// The states RECOVER is valid from: everything past ARMED.
pub open spec fn is_recoverable_state(state: u8) -> bool {
    state == State::BOOST || state == State::COAST || state == State::APOGEE || state
        == State::DESCENT || state == State::LANDED
}

/// Whether the latest frame reports exactly ARMED.
pub fn armed(tel: Option<&Telemetry>) -> (r: bool)
    ensures
        r == (tel matches Some(t) && t.state == State::ARMED),
{
    match tel {
        Some(t) => t.state == State::ARMED,
        None => false,
    }
}

/// Whether the latest frame reports a state RECOVER is valid from
/// (BOOST through LANDED).
pub fn recoverable(tel: Option<&Telemetry>) -> (r: bool)
    ensures
        r == (tel matches Some(t) && is_recoverable_state(t.state)),
{
    match tel {
        Some(t) => t.state == State::BOOST || t.state == State::COAST || t.state == State::APOGEE
            || t.state == State::DESCENT || t.state == State::LANDED,
        None => false,
    }
}

/// Whether the latest frame reports USB power on the payload.
pub fn payload_charging(tel: Option<&Telemetry>) -> (r: bool)
    ensures
        r == (tel matches Some(t) && t.sensors & Sensor::CHG != 0),
{
    match tel {
        Some(t) => t.sensors & Sensor::CHG != 0,
        None => false,
    }
}

/// Why arming is refused, judged from the latest frame, given whether its
/// battery reads below the threshold. `None` both when there is no reason
/// and when there is no frame at all.
pub fn nogo(tel: Option<&Telemetry>, low_battery: bool) -> (r: Option<NogoReason>)
    ensures
        r == (match tel {
            Some(t) => nogo_of(low_battery, t.sensors),
            None => None,
        }),
{
    match tel {
        Some(t) => nogo_decision(low_battery, t.sensors),
        None => None,
    }
}

} // verus!
