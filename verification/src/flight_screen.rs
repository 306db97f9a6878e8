//! The FLIGHT screen's systems-check table, decided from the latest
//! frame: which peripherals are online, the GPS lock, whether altitude
//! means anything yet, and which rocket picture to draw.
use vstd::prelude::*;
use crate::icons::{signal_bars, signal_percent};
use crate::nogo::NogoReason;
use crate::packet::{state_name, Sensor, State, Telemetry};
use crate::screen_text::{decimal, push_decimal};

verus! {

/// `ONLINE` when `bit` is set in `sensors`, else `OFFLINE`.
pub open spec fn online_label(sensors: u8, bit: u8) -> &'static str {
    if sensors & bit != 0 {
        "ONLINE"
    } else {
        "OFFLINE"
    }
}

/// `FIXED` with a GPS fix, else `SEARCH`.
pub open spec fn lock_label(has_fix: bool) -> &'static str {
    if has_fix {
        "FIXED"
    } else {
        "SEARCH"
    }
}

/// The peripheral's online label.
pub fn online(sensors: u8, bit: u8) -> (r: &'static str)
    ensures
        r == online_label(sensors, bit),
{
    if sensors & bit != 0 {
        "ONLINE"
    } else {
        "OFFLINE"
    }
}

/// The GPS lock label.
pub fn gps_lock_label(has_fix: bool) -> (r: &'static str)
    ensures
        r == lock_label(has_fix),
{
    if has_fix {
        "FIXED"
    } else {
        "SEARCH"
    }
}

/// Whether altitude is worth showing: ARM captures the ground-pressure
/// reference, so before it (BOOT, IDLE) altitude reads N/A.
pub fn altitude_shown(state: u8) -> (r: bool)
    ensures
        r == (state > State::IDLE),
{
    state > State::IDLE
}

/// The rocket picture: the low-battery one when the battery is what
/// forbids arming, else the idle or armed rocket.
#[derive(Debug, Clone, Copy, PartialEq, Eq, Structural)]
pub enum RocketArt {
    LowBattery,
    Rocket { armed: bool },
}

pub fn rocket_art(nogo: Option<NogoReason>, armed: bool) -> (r: RocketArt)
    ensures
        r == (if nogo == Some(NogoReason::LowBattery) {
            RocketArt::LowBattery
        } else {
            RocketArt::Rocket { armed }
        }),
{
    match nogo {
        Some(NogoReason::LowBattery) => RocketArt::LowBattery,
        _ => RocketArt::Rocket { armed },
    }
}

/// The rows of the ROCKET table that follow from the frame's integers
/// and the link's RSSI, each label padded to the table's value column.
/// (Temperature, altitude and battery are computed in floating point.)
#[derive(Debug, Clone)]
pub struct RocketRows {
    pub systems: String,
    pub atmosphere: String,
    pub accelerometer: String,
    pub magnetometer: String,
    pub filesystem: String,
    pub gps_lock: String,
    pub signal: String,
    pub status: String,
}

fn labelled(label: &str, value: &str) -> (r: String)
    ensures
        r@ == label@ + value@,
{
    let mut s = label.to_owned();
    s.append(value);
    s
}

/// The ROCKET table rows for a telemetry frame heard at `rssi`.
pub fn rocket_rows(tel: &Telemetry, rssi: Option<i16>) -> (r: RocketRows)
    ensures
        r.systems@ == "SYSTEMS CHECK:   v"@ + decimal(tel.fw_version as nat),
        r.atmosphere@ == "ATMOSPHERE:      "@ + online_label(tel.sensors, Sensor::BARO)@,
        r.accelerometer@ == "ACCELEROMETER:   "@ + online_label(tel.sensors, Sensor::IMU)@,
        r.magnetometer@ == "MAGNETOMETER:    "@ + online_label(tel.sensors, Sensor::MAG)@,
        r.filesystem@ == "FILESYSTEM:      "@ + online_label(tel.sensors, Sensor::LOG)@,
        r.gps_lock@ == "GPS LOCK:        "@ + lock_label(tel.has_fix)@,
        r.signal@ == "SIGNAL STRENGTH: "@ + decimal((25 * signal_bars(rssi)) as nat) + "%"@,
        r.status@ == "STATUS:          "@ + state_name(tel.state)@,
{
    let mut systems = "SYSTEMS CHECK:   v".to_owned();
    push_decimal(&mut systems, tel.fw_version as u32);
    let mut signal = "SIGNAL STRENGTH: ".to_owned();
    let pct = signal_percent(rssi);
    push_decimal(&mut signal, pct as u32);
    signal.append("%");
    RocketRows {
        systems,
        atmosphere: labelled("ATMOSPHERE:      ", online(tel.sensors, Sensor::BARO)),
        accelerometer: labelled("ACCELEROMETER:   ", online(tel.sensors, Sensor::IMU)),
        magnetometer: labelled("MAGNETOMETER:    ", online(tel.sensors, Sensor::MAG)),
        filesystem: labelled("FILESYSTEM:      ", online(tel.sensors, Sensor::LOG)),
        gps_lock: labelled("GPS LOCK:        ", gps_lock_label(tel.has_fix)),
        signal,
        status: labelled("STATUS:          ", tel.state_name()),
    }
}

/// The handheld's own firmware build counter.
pub const FIRMWARE_VERSION: u8 = 2;

/// The CONTROLLER panel's rows that need no floating point.
#[derive(Debug, Clone)]
pub struct ControllerRows {
    pub firmware: String,
    pub gps_lock: String,
}

/// The CONTROLLER panel's firmware and GPS rows, given whether the
/// handheld has a fix of its own.
pub fn controller_rows(my_fix: bool) -> (r: ControllerRows)
    ensures
        r.firmware@ == "FIRMWARE: v"@ + decimal(FIRMWARE_VERSION as nat),
        r.gps_lock@ == "GPS LOCK: "@ + lock_label(my_fix)@,
{
    let mut firmware = "FIRMWARE: v".to_owned();
    push_decimal(&mut firmware, FIRMWARE_VERSION as u32);
    ControllerRows { firmware, gps_lock: labelled("GPS LOCK: ", gps_lock_label(my_fix)) }
}

/// The non-empty lines among the first `n` of the command log, each with
/// its row number, top to bottom.
pub open spec fn drawn_log_lines(lines: Seq<&'static str>, n: int) -> Seq<(usize, &'static str)>
    decreases n,
{
    if n <= 0 {
        seq![]
    } else {
        let before = drawn_log_lines(lines, n - 1);
        if lines[n - 1]@.len() == 0 {
            before
        } else {
            before.push(((n - 1) as usize, lines[n - 1]))
        }
    }
}

/// The command-log lines the CONTROLLER panel draws: the non-empty ones,
/// each at its own row so that the log keeps its shape while it fills.
pub fn log_rows(lines: &Vec<&'static str>) -> (r: Vec<(usize, &'static str)>)
    ensures
        r@ == drawn_log_lines(lines@, lines@.len() as int),
{
    let mut out: Vec<(usize, &'static str)> = Vec::new();
    let mut i: usize = 0;
    while i < lines.len()
        invariant
            i <= lines@.len(),
            out@ == drawn_log_lines(lines@, i as int),
        decreases lines@.len() - i,
    {
        let entry: &'static str = lines[i];
        if !entry.is_empty() {
            out.push((i, entry));
        }
        i = i + 1;
    }
    out
}

} // verus!
