//! Wall-clock reference for a board with no real-time clock: one
//! `(wall clock, monotonic clock)` pair is captured from a GPS fix's UTC
//! time, and wall-clock time at any later moment of the same power-on
//! session follows from the board's own free-running millisecond clock.
use vstd::prelude::*;
use crate::nmea::{unix_ms, unix_ms_of, UtcDateTime};

verus! {

/// A captured wall-clock reference: Unix milliseconds minus the
/// monotonic milliseconds at the moment of capture.
#[derive(Debug, Clone, Copy, PartialEq, Eq, Structural)]
pub struct EpochOffset(i64);

impl EpochOffset {
    /// The offset in milliseconds.
    pub closed spec fn offset(&self) -> int {
        self.0 as int
    }

    /// Offsets only come from a calendar time with a 16-bit year.
    #[verifier::type_invariant]
    closed spec fn in_range(&self) -> bool {
        -300_000_000_000_000 <= self.0 <= 3_000_000_000_000_000
    }

    /// Capture the offset from a UTC fix observed at `now_ms` on the
    /// caller's own monotonic clock.
    pub fn capture(utc: &UtcDateTime, now_ms: u32) -> (r: Self)
        ensures
            r.offset() == unix_ms_of(*utc) - now_ms,
    {
        EpochOffset(unix_ms(utc) - now_ms as i64)
    }

    /// Wall-clock time (Unix ms) at `now_ms` on the same monotonic clock
    /// this offset was captured against.
    pub fn wall_clock_ms(&self, now_ms: u32) -> (r: i64)
        ensures
            r == self.offset() + now_ms,
    {
        proof {
            use_type_invariant(self);
        }
        self.0 + now_ms as i64
    }
}

/// The GPS task's rule: the reference is captured from the first fix
/// that has a UTC time, and never recomputed after (clock drift over a
/// session is far too small to matter, and a later noisy fix must not
/// replace a good reference).
pub fn capture_once(current: Option<EpochOffset>, utc: Option<UtcDateTime>, now_ms: u32) -> (r: Option<EpochOffset>)
    ensures
        current is Some ==> r == current,
        current is None ==> (r is Some <==> utc is Some),
        current is None && utc is Some ==> r.unwrap().offset() == unix_ms_of(utc.unwrap()) - now_ms,
{
    match current {
        Some(o) => Some(o),
        None => match utc {
            Some(u) => Some(EpochOffset::capture(&u, now_ms)),
            None => None,
        },
    }
}

/// Two references are the same exactly when their offsets are: so two
/// fixes observed consistently on one monotonic clock (equal Unix time
/// minus observation time) capture the same reference, and any others
/// capture different ones.
pub proof fn lemma_offset_identifies(a: EpochOffset, b: EpochOffset)
    ensures
        a == b <==> a.offset() == b.offset(),
{
}

/// An offset captured from `utc` at monotonic time `at` reads back `utc`
/// at that moment, and advances exactly as the monotonic clock does.
pub proof fn lemma_wall_clock_follows_capture(e: EpochOffset, utc: UtcDateTime, at: u32, now: u32)
    requires
        e.offset() == unix_ms_of(utc) - at,
    ensures
        e.offset() + at == unix_ms_of(utc),
        e.offset() + now == unix_ms_of(utc) + (now - at),
{
}

} // verus!
