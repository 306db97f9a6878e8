//! Status-icon bucketing: radio signal and battery charge as 0-4 bars.
use vstd::prelude::*;

verus! {

/// Bars for an RSSI reading in dBm: -50 and up 4, -70 and up 3, -90 and
/// up 2, -110 and up 1, weaker 0; no reading 0.
pub open spec fn signal_bars(rssi: Option<i16>) -> u8 {
    match rssi {
        None => 0,
        Some(r) => if r >= -50 {
            4
        } else if r >= -70 {
            3
        } else if r >= -90 {
            2
        } else if r >= -110 {
            1
        } else {
            0
        },
    }
}

/// Bucket an RSSI reading (dBm) into a 0-4 bar count.
pub fn signal_level(rssi: Option<i16>) -> (r: u8)
    ensures
        r == signal_bars(rssi),
        r <= 4,
{
    match rssi {
        None => 0,
        Some(rssi) => if rssi >= -50 {
            4
        } else if rssi >= -70 {
            3
        } else if rssi >= -90 {
            2
        } else if rssi >= -110 {
            1
        } else {
            0
        },
    }
}

/// The same 0-4 bucket as the bar icon, as a percentage.
pub fn signal_percent(rssi: Option<i16>) -> (r: u16)
    ensures
        r == 25 * signal_bars(rssi),
{
    signal_level(rssi) as u16 * 25
}

/// A stronger signal never shows fewer bars.
pub proof fn lemma_signal_monotone(a: i16, b: i16)
    requires
        a <= b,
    ensures
        signal_bars(Some(a)) <= signal_bars(Some(b)),
{
}

/// Bars for a battery percentage: above 80 is 4, above 60 is 3, above 40
/// is 2, above 20 is 1, 20 or under is 0 (each tier's floor exclusive).
pub open spec fn battery_bars(pct: u8) -> u8 {
    if pct > 80 {
        4
    } else if pct > 60 {
        3
    } else if pct > 40 {
        2
    } else if pct > 20 {
        1
    } else {
        0
    }
}

/// Bucket a battery percentage into a 0-4 fill level for the bar icon.
pub fn battery_level_of_percent(pct: u8) -> (r: u8)
    ensures
        r == battery_bars(pct),
        r <= 4,
{
    if pct > 80 {
        4
    } else if pct > 60 {
        3
    } else if pct > 40 {
        2
    } else if pct > 20 {
        1
    } else {
        0
    }
}

/// More charge never shows fewer bars.
pub proof fn lemma_battery_bars_monotone(a: u8, b: u8)
    requires
        a <= b,
    ensures
        battery_bars(a) <= battery_bars(b),
{
}

} // verus!
