//! The status of a FLIGHTS-screen summary request: done when a summary
//! answering the same flight index arrives, failed after
//! [`CONFIRM_FRAMES`] telemetry frames without one or when the link is
//! lost.
use vstd::prelude::*;
use crate::flight_index::{timed_out, CONFIRM_FRAMES};
use crate::link::LinkStatus;
use crate::packet::Summary;

verus! {

#[derive(Debug, Clone, Copy, PartialEq, Eq)]
pub enum SummaryRequest {
    /// Nothing requested, or the last result has been left behind.
    Idle,
    Pending { index: u8, packets_at_send: u32 },
    Ready(Summary),
    Failed { index: u8 },
}

impl SummaryRequest {
    /// After a `GET_SUMMARY_BASE + index` command went out.
    pub fn start(&mut self, index: u8, packets_now: u32)
        ensures
            *final(self) == (SummaryRequest::Pending { index, packets_at_send: packets_now }),
    {
        *self = SummaryRequest::Pending { index, packets_at_send: packets_now };
    }

    /// A summary arrived: it completes the request only if one is pending
    /// for the same flight index; anything else is a stale reply and is
    /// dropped.
    pub fn record_response(&mut self, summary: Summary)
        ensures
            *final(self) == (match *old(self) {
                SummaryRequest::Pending { index, .. } => if index == summary.flight_index {
                    SummaryRequest::Ready(summary)
                } else {
                    *old(self)
                },
                _ => *old(self),
            }),
    {
        if let SummaryRequest::Pending { index, .. } = *self {
            if index == summary.flight_index {
                *self = SummaryRequest::Ready(summary);
            }
        }
    }

    /// Once per loop: a pending request fails once enough frames have
    /// arrived since it was sent, or the link is lost.
    pub fn poll_timeout(&mut self, packets_now: u32, status: LinkStatus)
        ensures
            *final(self) == (match *old(self) {
                SummaryRequest::Pending { index, packets_at_send } => if timed_out(
                    packets_now,
                    packets_at_send,
                    status,
                ) {
                    SummaryRequest::Failed { index }
                } else {
                    *old(self)
                },
                _ => *old(self),
            }),
    {
        if let SummaryRequest::Pending { index, packets_at_send } = *self {
            if packets_now.wrapping_sub(packets_at_send) >= CONFIRM_FRAMES || status == LinkStatus::Lost {
                *self = SummaryRequest::Failed { index };
            }
        }
    }

    /// Back to idle, when the user leaves SUMMARY.
    pub fn reset(&mut self)
        ensures
            *final(self) == SummaryRequest::Idle,
    {
        *self = SummaryRequest::Idle;
    }

    /// Show an already cached summary, with no request at all.
    pub fn show_cached(&mut self, summary: Summary)
        ensures
            *final(self) == SummaryRequest::Ready(summary),
    {
        *self = SummaryRequest::Ready(summary);
    }
}

} // verus!
