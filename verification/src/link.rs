//! Radio link freshness: the age of the last received packet bucketed
//! into WAITING / LIVE / STALE / LOST.
use vstd::prelude::*;

verus! {

/// No packet for longer than this: shown as stale.
pub const LINK_STALE_MS: u32 = 3000;

/// No packet for longer than this: shown as lost.
pub const LINK_LOST_MS: u32 = 15000;

#[derive(Debug, Clone, Copy, PartialEq, Eq, Structural)]
pub enum LinkStatus {
    /// No packet has ever been received.
    Waiting,
    Live,
    Stale,
    Lost,
}

/// The display name of `s`.
pub open spec fn link_status_name(s: LinkStatus) -> &'static str {
    match s {
        LinkStatus::Waiting => "WAITING",
        LinkStatus::Live => "LIVE",
        LinkStatus::Stale => "STALE",
        LinkStatus::Lost => "LOST",
    }
}

impl LinkStatus {
    pub fn name(self) -> (r: &'static str)
        ensures
            r == link_status_name(self),
    {
        match self {
            LinkStatus::Waiting => "WAITING",
            LinkStatus::Live => "LIVE",
            LinkStatus::Stale => "STALE",
            LinkStatus::Lost => "LOST",
        }
    }
}

/// The bucket of a packet age: `None` (nothing ever received) is
/// waiting; older than [`LINK_LOST_MS`] lost; older than
/// [`LINK_STALE_MS`] stale; otherwise live.
pub open spec fn status_of_age(age_ms: Option<u32>) -> LinkStatus {
    match age_ms {
        None => LinkStatus::Waiting,
        Some(age) => if age > LINK_LOST_MS {
            LinkStatus::Lost
        } else if age > LINK_STALE_MS {
            LinkStatus::Stale
        } else {
            LinkStatus::Live
        },
    }
}

/// Bucket the age (in ms) of the last received packet.
pub fn link_status(age_ms: Option<u32>) -> (r: LinkStatus)
    ensures
        r == status_of_age(age_ms),
{
    match age_ms {
        None => LinkStatus::Waiting,
        Some(age) => if age > LINK_LOST_MS {
            LinkStatus::Lost
        } else if age > LINK_STALE_MS {
            LinkStatus::Stale
        } else {
            LinkStatus::Live
        },
    }
}

/// No packet for longer than this: nothing current to show at all.
pub const TELEMETRY_MISSING_MS: u32 = 60000;

/// Whether there is no current telemetry to show: nothing ever received,
/// or the last packet is older than [`TELEMETRY_MISSING_MS`].
pub fn telemetry_missing(age_ms: Option<u32>) -> (r: bool)
    ensures
        r == (match age_ms {
            None => true,
            Some(age) => age > TELEMETRY_MISSING_MS,
        }),
{
    match age_ms {
        None => true,
        Some(age) => age > TELEMETRY_MISSING_MS,
    }
}

/// How stale a status of a received packet is: live 0, stale 1, lost 2.
pub open spec fn staleness(s: LinkStatus) -> int {
    match s {
        LinkStatus::Live => 0,
        LinkStatus::Stale => 1,
        LinkStatus::Lost => 2,
        LinkStatus::Waiting => 3,
    }
}

/// An older packet never reads as fresher: the buckets are ordered by
/// age.
pub proof fn lemma_status_monotone(a: u32, b: u32)
    requires
        a <= b,
    ensures
        staleness(status_of_age(Some(a))) <= staleness(status_of_age(Some(b))),
        staleness(status_of_age(Some(b))) <= 2,
{
}

} // verus!
