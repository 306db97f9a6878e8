//! The ground station's cached list of the rocket's stored flights, and
//! its cache of individual flight summaries.
//!
//! The flight index (the ordered ARM timestamps) is fetched on request;
//! summaries are cached both from a manual selection and from a
//! background prefetch that walks every not-yet-cached index once the
//! index is ready. At most one prefetch request is in flight at a time;
//! an index whose prefetch times out is abandoned (not retried
//! automatically) so one unreachable entry cannot stall the rest.
//! Invalidation, and every fresh index, clears everything.
use vstd::prelude::*;
use crate::cmdlog::PollOutcome;
use crate::link::LinkStatus;
use crate::packet::{Summary, MAX_STORED_FLIGHTS};

verus! {

/// Telemetry frames to see arrive before giving up on a response.
pub const CONFIRM_FRAMES: u32 = 3;

#[derive(Debug, Clone, Copy, PartialEq, Eq, Structural)]
pub enum IndexState {
    /// Never fetched, or just invalidated.
    Idle,
    Pending { packets_at_send: u32 },
    /// Fetched, with at least one flight.
    Ready { count: u8 },
    /// Fetched, no flights stored.
    Empty,
    Failed,
}

/// The background summary prefetch.
#[derive(Debug, Clone, Copy, PartialEq, Eq, Structural)]
pub enum Prefetch {
    /// Nothing in flight.
    Idle,
    Requesting { index: u8, packets_at_send: u32 },
}

/// Whether bit `i` of `mask` is set.
pub open spec fn bit_set(mask: u32, i: int) -> bool {
    (mask >> (i as u32)) & 1 == 1
}

/// Number of set bits of `mask` below bit `n`.
pub open spec fn ones_below(mask: u32, n: nat) -> nat
    decreases n,
{
    if n == 0 {
        0
    } else {
        ones_below(mask, (n - 1) as nat) + if bit_set(mask, n - 1) {
            1nat
        } else {
            0nat
        }
    }
}

/// Number of cached summaries among the first `n`.
pub open spec fn cached_below(summaries: Seq<Option<Summary>>, n: nat) -> nat
    decreases n,
{
    if n == 0 {
        0
    } else {
        cached_below(summaries, (n - 1) as nat) + if summaries[n - 1] is Some {
            1nat
        } else {
            0nat
        }
    }
}

/// Number of flights a state reports.
pub open spec fn index_count(s: IndexState) -> u8 {
    match s {
        IndexState::Ready { count } => count,
        _ => 0,
    }
}

/// Whether the flight at `i` needs no more prefetching: cached, or
/// abandoned.
pub open spec fn resolved(summaries: Seq<Option<Summary>>, abandoned: u32, i: int) -> bool {
    summaries[i] is Some || bit_set(abandoned, i)
}

/// Whether the response count has reached the limit, or the link is
/// lost.
pub open spec fn timed_out(packets_now: u32, packets_at_send: u32, status: LinkStatus) -> bool {
    packets_now.wrapping_sub(packets_at_send) >= CONFIRM_FRAMES || status == LinkStatus::Lost
}

proof fn lemma_bit_test(mask: u32, i: u32)
    requires
        i < 32,
    ensures
        (mask & (1u32 << i) != 0) == bit_set(mask, i as int),
        bit_set(mask | (1u32 << i), i as int),
        forall|j: u32| j < 32 && j != i ==> bit_set(mask | (1u32 << i), j as int) == bit_set(mask, j as int),
{
    assert((mask & (1u32 << i) != 0) == ((mask >> i) & 1 == 1)) by (bit_vector)
        requires
            i < 32,
    ;
    assert(((mask | (1u32 << i)) >> i) & 1 == 1) by (bit_vector)
        requires
            i < 32,
    ;
    assert forall|j: u32| j < 32 && j != i implies bit_set(mask | (1u32 << i), j as int) == bit_set(mask, j as int) by {
        assert(j < 32 && j != i ==> ((((mask | (1u32 << i)) >> j) & 1 == 1) == (((mask >> j) & 1) == 1))) by (bit_vector);
    }
}

proof fn lemma_ones_below_monotone(mask: u32, a: nat, b: nat)
    requires
        a <= b,
    ensures
        ones_below(mask, a) <= ones_below(mask, b),
    decreases b,
{
    if b > a {
        lemma_ones_below_monotone(mask, a, (b - 1) as nat);
    }
}

proof fn lemma_resolved_count(summaries: Seq<Option<Summary>>, abandoned: u32, n: nat)
    requires
        n <= summaries.len(),
        forall|j: int| 0 <= j < n ==> resolved(summaries, abandoned, j),
    ensures
        cached_below(summaries, n) + ones_below(abandoned, n) >= n,
    decreases n,
{
    if n > 0 {
        lemma_resolved_count(summaries, abandoned, (n - 1) as nat);
        assert(resolved(summaries, abandoned, n - 1));
    }
}

/// Once every flight of the index is cached or abandoned, the prefetch
/// reports no work left: the progress banner goes away exactly when the
/// walk has nothing more to request.
pub proof fn lemma_progress_done_when_all_resolved(summaries: Seq<Option<Summary>>, abandoned: u32, count: u8)
    requires
        count <= MAX_STORED_FLIGHTS,
        summaries.len() == MAX_STORED_FLIGHTS,
        forall|j: int| 0 <= j < count ==> resolved(summaries, abandoned, j),
    ensures
        cached_below(summaries, count as nat) + ones_below(abandoned, 32) >= count,
{
    lemma_resolved_count(summaries, abandoned, count as nat);
    lemma_ones_below_monotone(abandoned, count as nat, 32);
}

/// The flight index and summary caches.
pub struct FlightIndexState {
    pub state: IndexState,
    timestamps: Vec<u32>,
    summaries: Vec<Option<Summary>>,
    prefetch: Prefetch,
    /// Bit `i` set: the prefetch of index `i` timed out this cache
    /// generation and is not retried automatically.
    abandoned: u32,
}

impl FlightIndexState {
    /// The state of the index fetch.
    pub closed spec fn spec_state(&self) -> IndexState {
        self.state
    }

    /// The cached ARM timestamps, one slot per storable flight.
    pub closed spec fn spec_timestamps(&self) -> Seq<u32> {
        self.timestamps@
    }

    /// The cached summaries, one slot per storable flight.
    pub closed spec fn spec_summaries(&self) -> Seq<Option<Summary>> {
        self.summaries@
    }

    /// The background prefetch.
    pub closed spec fn spec_prefetch(&self) -> Prefetch {
        self.prefetch
    }

    /// The abandoned prefetch indices, as a bit mask.
    pub closed spec fn spec_abandoned(&self) -> u32 {
        self.abandoned
    }

    /// One slot per storable flight; a ready index has 1 to 32 flights;
    /// a prefetch asks for a storable index.
    pub closed spec fn wf(&self) -> bool {
        &&& self.spec_timestamps().len() == MAX_STORED_FLIGHTS
        &&& self.spec_summaries().len() == MAX_STORED_FLIGHTS
        &&& self.spec_state() matches IndexState::Ready { count } ==> 1 <= count <= MAX_STORED_FLIGHTS
        &&& self.spec_prefetch() matches Prefetch::Requesting { index, .. } ==> index < MAX_STORED_FLIGHTS
    }

    /// Nothing fetched, nothing cached.
    pub fn new() -> (r: Self)
        ensures
            r.wf(),
            r.spec_state() == IndexState::Idle,
            r.spec_summaries() == Seq::new(MAX_STORED_FLIGHTS as nat, |i: int| None::<Summary>),
            r.spec_prefetch() == Prefetch::Idle,
            r.spec_abandoned() == 0,
    {
        let mut timestamps: Vec<u32> = Vec::new();
        let mut summaries: Vec<Option<Summary>> = Vec::new();
        let mut i: u8 = 0;
        while i < MAX_STORED_FLIGHTS
            invariant
                i <= MAX_STORED_FLIGHTS,
                timestamps@.len() == i,
                summaries@ == Seq::new(i as nat, |k: int| None::<Summary>),
            decreases MAX_STORED_FLIGHTS - i,
        {
            timestamps.push(0);
            summaries.push(None);
            i = i + 1;
            assert(summaries@ =~= Seq::new(i as nat, |k: int| None::<Summary>));
        }
        FlightIndexState { state: IndexState::Idle, timestamps, summaries, prefetch: Prefetch::Idle, abandoned: 0 }
    }

    /// The state of the index fetch.
    pub fn state(&self) -> (r: IndexState)
        ensures
            r == self.spec_state(),
    {
        self.state
    }

    /// Number of flights in a ready index, else 0.
    pub fn count(&self) -> (r: u8)
        ensures
            r == index_count(self.spec_state()),
    {
        match self.state {
            IndexState::Ready { count } => count,
            _ => 0,
        }
    }

    /// The cached summary of flight `index`, if any.
    pub fn cached_summary(&self, index: u8) -> (r: Option<Summary>)
        requires
            self.wf(),
        ensures
            r == (if index < MAX_STORED_FLIGHTS {
                self.spec_summaries()[index as int]
            } else {
                None
            }),
    {
        if index < MAX_STORED_FLIGHTS {
            self.summaries[index as usize]
        } else {
            None
        }
    }

    /// The lowest index that still needs a prefetch attempt: `None` while
    /// a prefetch request is in flight, or when every flight is cached or
    /// abandoned.
    fn lowest_uncached_index(&self) -> (r: Option<u8>)
        requires
            self.wf(),
        ensures
            r matches Some(i) ==> {
                &&& self.spec_prefetch() is Idle
                &&& i < index_count(self.spec_state())
                &&& i < MAX_STORED_FLIGHTS
                &&& !resolved(self.spec_summaries(), self.spec_abandoned(), i as int)
                &&& forall|j: int| 0 <= j < i ==> resolved(self.spec_summaries(), self.spec_abandoned(), j)
            },
            r is None ==> self.spec_prefetch() is Requesting || forall|j: int|
                0 <= j < index_count(self.spec_state()) ==> resolved(self.spec_summaries(), self.spec_abandoned(), j),
    {
        if let Prefetch::Requesting { .. } = self.prefetch {
            return None;
        }
        let count = self.count();
        let mut i: u8 = 0;
        while i < count
            invariant
                self.wf(),
                self.prefetch == Prefetch::Idle,
                count == index_count(self.spec_state()),
                count <= MAX_STORED_FLIGHTS,
                i <= count,
                forall|j: int| 0 <= j < i ==> resolved(self.spec_summaries(), self.spec_abandoned(), j),
            decreases count - i,
        {
            proof {
                lemma_bit_test(self.abandoned, i as u32);
            }
            if self.summaries[i as usize].is_none() && self.abandoned & (1u32 << i) == 0 {
                return Some(i);
            }
            i = i + 1;
        }
        None
    }

    /// `(cached, total)` while the background prefetch still has work
    /// left: `None` with no flights, or once the cached summaries plus the
    /// abandoned indices account for every flight.
    pub fn prefetch_progress(&self) -> (r: Option<(u8, u8)>)
        requires
            self.wf(),
        ensures
            ({
                let total = index_count(self.spec_state());
                let cached = cached_below(self.spec_summaries(), total as nat);
                let resolved = cached + ones_below(self.spec_abandoned(), 32);
                r == (if total == 0 || resolved >= total {
                    None
                } else {
                    Some((cached as u8, total))
                })
            }),
    {
        let total = self.count();
        if total == 0 {
            return None;
        }
        let mut cached: u32 = 0;
        let mut i: u8 = 0;
        while i < total
            invariant
                self.wf(),
                total == index_count(self.spec_state()),
                total <= MAX_STORED_FLIGHTS,
                i <= total,
                cached == cached_below(self.spec_summaries(), i as nat),
                cached <= i,
            decreases total - i,
        {
            if self.summaries[i as usize].is_some() {
                cached = cached + 1;
            }
            i = i + 1;
        }
        let mut ones: u32 = 0;
        let mut b: u32 = 0;
        while b < 32
            invariant
                b <= 32,
                ones == ones_below(self.abandoned, b as nat),
                ones <= b,
            decreases 32 - b,
        {
            proof {
                lemma_bit_test(self.abandoned, b);
            }
            if self.abandoned & (1u32 << b) != 0 {
                ones = ones + 1;
            }
            b = b + 1;
        }
        let resolved = cached + ones;
        if resolved >= total as u32 {
            None
        } else {
            Some((cached as u8, total))
        }
    }

    /// After a `GET_FLIGHT_INDEX` command went out.
    pub fn start_fetch(&mut self, packets_now: u32)
        requires
            old(self).wf(),
        ensures
            final(self).wf(),
            final(self).spec_state() == (IndexState::Pending { packets_at_send: packets_now }),
            final(self).spec_timestamps() == old(self).spec_timestamps(),
            final(self).spec_summaries() == old(self).spec_summaries(),
            final(self).spec_prefetch() == old(self).spec_prefetch(),
            final(self).spec_abandoned() == old(self).spec_abandoned(),
    {
        self.state = IndexState::Pending { packets_at_send: packets_now };
    }

    /// A flight index arrived. Ignored unless a fetch is pending;
    /// otherwise the first 32 timestamps are kept, every cached summary
    /// and abandoned mark is dropped, and the index is ready (or empty).
    pub fn record_response(&mut self, timestamps: &[u32])
        requires
            old(self).wf(),
        ensures
            final(self).wf(),
            !(old(self).spec_state() is Pending) ==> *final(self) == *old(self),
            old(self).spec_state() is Pending ==> {
                let n = if timestamps@.len() < MAX_STORED_FLIGHTS {
                    timestamps@.len()
                } else {
                    MAX_STORED_FLIGHTS as nat
                };
                &&& final(self).spec_state() == (if n == 0 {
                    IndexState::Empty
                } else {
                    IndexState::Ready { count: n as u8 }
                })
                &&& final(self).spec_timestamps().take(n as int) == timestamps@.take(n as int)
                &&& final(self).spec_timestamps().skip(n as int) == old(self).spec_timestamps().skip(
                    n as int,
                )
                &&& final(self).spec_summaries() == Seq::new(
                    MAX_STORED_FLIGHTS as nat,
                    |i: int| None::<Summary>,
                )
                &&& final(self).spec_prefetch() == Prefetch::Idle
                &&& final(self).spec_abandoned() == 0
            },
    {
        if let IndexState::Pending { .. } = self.state {
        } else {
            return;
        }
        let count: usize = if timestamps.len() < MAX_STORED_FLIGHTS as usize {
            timestamps.len()
        } else {
            MAX_STORED_FLIGHTS as usize
        };
        let ghost old_ts = self.timestamps@;
        let mut i: usize = 0;
        while i < count
            invariant
                count <= timestamps@.len(),
                count <= MAX_STORED_FLIGHTS,
                i <= count,
                self.timestamps@.len() == MAX_STORED_FLIGHTS,
                self.summaries@.len() == MAX_STORED_FLIGHTS,
                self.state == old(self).state,
                old_ts.len() == MAX_STORED_FLIGHTS,
                forall|j: int| 0 <= j < i ==> self.timestamps@[j] == timestamps@[j],
                forall|j: int| i <= j < MAX_STORED_FLIGHTS ==> self.timestamps@[j] == old_ts[j],
            decreases count - i,
        {
            self.timestamps.set(i, timestamps[i]);
            i = i + 1;
        }
        assert(self.timestamps@.take(count as int) =~= timestamps@.take(count as int));
        assert(self.timestamps@.skip(count as int) =~= old_ts.skip(count as int));
        let mut k: usize = 0;
        while k < MAX_STORED_FLIGHTS as usize
            invariant
                k <= MAX_STORED_FLIGHTS,
                count <= MAX_STORED_FLIGHTS,
                self.summaries@.len() == MAX_STORED_FLIGHTS,
                self.timestamps@.len() == MAX_STORED_FLIGHTS,
                self.timestamps@.take(count as int) == timestamps@.take(count as int),
                self.timestamps@.skip(count as int) == old_ts.skip(count as int),
                forall|j: int| 0 <= j < k ==> self.summaries@[j] is None,
            decreases MAX_STORED_FLIGHTS - k,
        {
            self.summaries.set(k, None);
            k = k + 1;
        }
        assert(self.summaries@ =~= Seq::new(MAX_STORED_FLIGHTS as nat, |i: int| None::<Summary>));
        self.prefetch = Prefetch::Idle;
        self.abandoned = 0;
        self.state = if count == 0 {
            IndexState::Empty
        } else {
            IndexState::Ready { count: count as u8 }
        };
    }

    /// After a background prefetch request for `index` went out.
    pub fn start_prefetch(&mut self, index: u8, packets_now: u32)
        requires
            old(self).wf(),
            index < MAX_STORED_FLIGHTS,
        ensures
            final(self).wf(),
            final(self).spec_state() == old(self).spec_state(),
            final(self).spec_timestamps() == old(self).spec_timestamps(),
            final(self).spec_summaries() == old(self).spec_summaries(),
            final(self).spec_prefetch() == (Prefetch::Requesting { index, packets_at_send: packets_now }),
            final(self).spec_abandoned() == old(self).spec_abandoned(),
    {
        self.prefetch = Prefetch::Requesting { index, packets_at_send: packets_now };
    }

    /// The index the background prefetch should request next, if any.
    pub fn next_to_prefetch(&self) -> (r: Option<u8>)
        requires
            self.wf(),
        ensures
            r matches Some(i) ==> {
                &&& self.spec_prefetch() is Idle
                &&& i < index_count(self.spec_state())
                &&& i < MAX_STORED_FLIGHTS
                &&& !resolved(self.spec_summaries(), self.spec_abandoned(), i as int)
                &&& forall|j: int| 0 <= j < i ==> resolved(self.spec_summaries(), self.spec_abandoned(), j)
            },
            r is None ==> self.spec_prefetch() is Requesting || forall|j: int|
                0 <= j < index_count(self.spec_state()) ==> resolved(self.spec_summaries(), self.spec_abandoned(), j),
    {
        self.lowest_uncached_index()
    }

    /// Keep a received summary, under its own flight index (ignored past
    /// the last slot). If it answers the prefetch in flight, that prefetch
    /// is done.
    pub fn record_summary(&mut self, summary: Summary)
        requires
            old(self).wf(),
        ensures
            final(self).wf(),
            final(self).spec_state() == old(self).spec_state(),
            final(self).spec_timestamps() == old(self).spec_timestamps(),
            final(self).spec_summaries() == (if summary.flight_index < MAX_STORED_FLIGHTS {
                old(self).spec_summaries().update(summary.flight_index as int, Some(summary))
            } else {
                old(self).spec_summaries()
            }),
            final(self).spec_prefetch() == (match old(self).spec_prefetch() {
                Prefetch::Requesting { index, .. } => if index == summary.flight_index {
                    Prefetch::Idle
                } else {
                    old(self).spec_prefetch()
                },
                Prefetch::Idle => Prefetch::Idle,
            }),
            final(self).spec_abandoned() == old(self).spec_abandoned(),
    {
        if summary.flight_index < MAX_STORED_FLIGHTS {
            self.summaries.set(summary.flight_index as usize, Some(summary));
        }
        if let Prefetch::Requesting { index, .. } = self.prefetch {
            if index == summary.flight_index {
                self.prefetch = Prefetch::Idle;
            }
        }
    }

    /// Once per loop: a pending fetch fails, and a prefetch in flight is
    /// abandoned, once [`CONFIRM_FRAMES`] frames have arrived since its
    /// request or the link is lost.
    pub fn poll_timeout(&mut self, packets_now: u32, status: LinkStatus)
        requires
            old(self).wf(),
        ensures
            final(self).wf(),
            final(self).spec_state() == (match old(self).spec_state() {
                IndexState::Pending { packets_at_send } => if timed_out(packets_now, packets_at_send, status) {
                    IndexState::Failed
                } else {
                    old(self).spec_state()
                },
                _ => old(self).spec_state(),
            }),
            final(self).spec_timestamps() == old(self).spec_timestamps(),
            final(self).spec_summaries() == old(self).spec_summaries(),
            ({
                match old(self).spec_prefetch() {
                    Prefetch::Requesting { index, packets_at_send } => if timed_out(packets_now, packets_at_send, status) {
                        &&& final(self).spec_prefetch() == Prefetch::Idle
                        &&& bit_set(final(self).spec_abandoned(), index as int)
                        &&& forall|j: int| 0 <= j < 32 && j != index ==> bit_set(final(self).spec_abandoned(), j) == bit_set(old(self).spec_abandoned(), j)
                    } else {
                        final(self).spec_prefetch() == old(self).spec_prefetch() && final(self).spec_abandoned() == old(self).spec_abandoned()
                    },
                    Prefetch::Idle => final(self).spec_prefetch() == old(self).spec_prefetch() && final(self).spec_abandoned() == old(self).spec_abandoned(),
                }
            }),
    {
        if let IndexState::Pending { packets_at_send } = self.state {
            if packets_now.wrapping_sub(packets_at_send) >= CONFIRM_FRAMES || status == LinkStatus::Lost {
                self.state = IndexState::Failed;
            }
        }
        if let Prefetch::Requesting { index, packets_at_send } = self.prefetch {
            if packets_now.wrapping_sub(packets_at_send) >= CONFIRM_FRAMES || status == LinkStatus::Lost {
                proof {
                    lemma_bit_test(self.abandoned, index as u32);
                    assert forall|j: int| 0 <= j < 32 && j != index implies bit_set(self.abandoned | (1u32 << index), j) == bit_set(self.abandoned, j) by {
                        let jj = j as u32;
                        assert(jj < 32 && jj != index as u32);
                    }
                }
                self.abandoned = self.abandoned | (1u32 << index);
                self.prefetch = Prefetch::Idle;
            }
        }
    }

    /// Clear both caches.
    pub fn invalidate(&mut self)
        requires
            old(self).wf(),
        ensures
            final(self).wf(),
            final(self).spec_state() == IndexState::Idle,
            final(self).spec_timestamps() == old(self).spec_timestamps(),
            final(self).spec_summaries() == Seq::new(MAX_STORED_FLIGHTS as nat, |i: int| None::<Summary>),
            final(self).spec_prefetch() == Prefetch::Idle,
            final(self).spec_abandoned() == 0,
    {
        self.state = IndexState::Idle;
        let mut k: usize = 0;
        while k < MAX_STORED_FLIGHTS as usize
            invariant
                k <= MAX_STORED_FLIGHTS,
                self.summaries@.len() == MAX_STORED_FLIGHTS,
                self.timestamps@ == old(self).timestamps@,
                self.timestamps@.len() == MAX_STORED_FLIGHTS,
                self.state == IndexState::Idle,
                forall|j: int| 0 <= j < k ==> self.summaries@[j] is None,
            decreases MAX_STORED_FLIGHTS - k,
        {
            self.summaries.set(k, None);
            k = k + 1;
        }
        assert(self.summaries@ =~= Seq::new(MAX_STORED_FLIGHTS as nat, |i: int| None::<Summary>));
        self.prefetch = Prefetch::Idle;
        self.abandoned = 0;
    }

    /// React to how a pending command resolved: a successful RECOVER has
    /// just archived a new flight on the rocket, so both caches are
    /// cleared as by [`Self::invalidate`]; any other outcome leaves them
    /// as they are.
    pub fn after_command(&mut self, outcome: Option<PollOutcome>)
        requires
            old(self).wf(),
        ensures
            final(self).wf(),
            outcome == Some(PollOutcome::RecoverSucceeded) ==> {
                &&& final(self).spec_state() == IndexState::Idle
                &&& final(self).spec_timestamps() == old(self).spec_timestamps()
                &&& final(self).spec_summaries() == Seq::new(MAX_STORED_FLIGHTS as nat, |i: int| None::<Summary>)
                &&& final(self).spec_prefetch() == Prefetch::Idle
                &&& final(self).spec_abandoned() == 0
            },
            outcome != Some(PollOutcome::RecoverSucceeded) ==> {
                &&& final(self).spec_state() == old(self).spec_state()
                &&& final(self).spec_timestamps() == old(self).spec_timestamps()
                &&& final(self).spec_summaries() == old(self).spec_summaries()
                &&& final(self).spec_prefetch() == old(self).spec_prefetch()
                &&& final(self).spec_abandoned() == old(self).spec_abandoned()
            },
    {
        if outcome == Some(PollOutcome::RecoverSucceeded) {
            self.invalidate();
        }
    }
}

} // verus!
