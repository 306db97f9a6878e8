//! What the ground station knows about the rocket from its radio: the
//! latest decoded frame with its signal readings, when it arrived, and
//! the rocket's last known GPS fix, latched separately so it survives the
//! rocket going silent. Times are milliseconds on the ground station's
//! monotonic clock.
use vstd::prelude::*;
use crate::packet::Telemetry;

verus! {

/// The rocket's last reported position, as IEEE-754 `f32` bits, and when
/// it was latched.
#[derive(Debug, Clone, Copy, PartialEq, Eq, Structural)]
pub struct LatchedFix {
    pub lat_bits: u32,
    pub lon_bits: u32,
    pub latched_at_ms: u64,
}

/// Whether the `f32` with bits `b` compares unequal to `0.0`: both zeros
/// compare equal to it, everything else (NaN included) does not.
pub open spec fn f32_nonzero(b: u32) -> bool {
    b & 0x7FFF_FFFF != 0
}

#[derive(Debug, Clone, Copy, PartialEq, Eq)]
pub struct LinkState {
    /// The latest frame, with its RSSI and SNR.
    pub latest: Option<(Telemetry, i16, i16)>,
    pub last_rx_ms: Option<u64>,
    pub fix: Option<LatchedFix>,
}

impl LinkState {
    /// Nothing received yet.
    pub fn new() -> (r: Self)
        ensures
            r.latest is None,
            r.last_rx_ms is None,
            r.fix is None,
    {
        LinkState { latest: None, last_rx_ms: None, fix: None }
    }

    /// Record a newly received frame at `now_ms`. The fix is latched again
    /// only when this frame has one (a fix flag and a latitude other than
    /// zero); otherwise the previous latch stays.
    pub fn record_rx(&mut self, telemetry: Telemetry, rssi: i16, snr: i16, now_ms: u64)
        ensures
            final(self).latest == Some((telemetry, rssi, snr)),
            final(self).last_rx_ms == Some(now_ms),
            final(self).fix == (if telemetry.has_fix && f32_nonzero(telemetry.lat_bits) {
                Some(LatchedFix { lat_bits: telemetry.lat_bits, lon_bits: telemetry.lon_bits, latched_at_ms: now_ms })
            } else {
                old(self).fix
            }),
    {
        if telemetry.has_fix && telemetry.lat_bits & 0x7FFF_FFFF != 0 {
            self.fix = Some(LatchedFix { lat_bits: telemetry.lat_bits, lon_bits: telemetry.lon_bits, latched_at_ms: now_ms });
        }
        self.latest = Some((telemetry, rssi, snr));
        self.last_rx_ms = Some(now_ms);
    }

    /// Age of the last received frame at `now_ms`, in ms, truncated to 32
    /// bits; `None` if nothing has been received.
    pub fn age_ms(&self, now_ms: u64) -> (r: Option<u32>)
        requires
            self.last_rx_ms matches Some(t) ==> t <= now_ms,
        ensures
            r == (match self.last_rx_ms {
                Some(t) => Some((now_ms - t) as u32),
                None => None,
            }),
    {
        match self.last_rx_ms {
            Some(t) => Some((now_ms - t) as u32),
            None => None,
        }
    }
}

} // verus!
