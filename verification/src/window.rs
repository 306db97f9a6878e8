//! The bookkeeping of a sliding window over the most recent
//! [`WINDOW_SAMPLES`] samples: which slot the next sample goes to, and
//! whether it evicts the oldest one. The samples themselves (GPS fixes to
//! be averaged) are kept by the caller, one per slot.
use vstd::prelude::*;

verus! {

/// How many recent samples are kept.
pub const WINDOW_SAMPLES: usize = 15;

/// Slot cursor and fill count of the window.
#[derive(Debug, Clone, Copy, PartialEq, Eq, Structural)]
pub struct SampleWindow {
    write_idx: usize,
    filled: usize,
}

impl SampleWindow {
    /// The slot the next sample goes to.
    pub closed spec fn spec_write_idx(&self) -> usize {
        self.write_idx
    }

    /// How many slots hold a sample.
    pub closed spec fn spec_filled(&self) -> usize {
        self.filled
    }

    pub closed spec fn wf(&self) -> bool {
        self.write_idx < WINDOW_SAMPLES && self.filled <= WINDOW_SAMPLES
            && (self.filled < WINDOW_SAMPLES ==> self.write_idx == self.filled)
    }

    /// An empty window.
    pub fn new() -> (r: Self)
        ensures
            r.wf(),
            r.spec_write_idx() == 0,
            r.spec_filled() == 0,
    {
        SampleWindow { write_idx: 0, filled: 0 }
    }

    /// Make room for a new sample: the slot it goes to, and whether that
    /// slot held the oldest sample (which the caller must drop). Slots
    /// are used in turn; the count grows until the window is full.
    pub fn push(&mut self) -> (r: (usize, bool))
        requires
            old(self).wf(),
        ensures
            final(self).wf(),
            r.0 == old(self).spec_write_idx(),
            r.1 == (old(self).spec_filled() == WINDOW_SAMPLES),
            final(self).spec_write_idx() == (old(self).spec_write_idx() + 1) % (WINDOW_SAMPLES as int),
            final(self).spec_filled() == (if old(self).spec_filled() == WINDOW_SAMPLES {
                WINDOW_SAMPLES
            } else {
                (old(self).spec_filled() + 1) as usize
            }),
    {
        let slot = self.write_idx;
        let evict = self.filled == WINDOW_SAMPLES;
        if !evict {
            self.filled = self.filled + 1;
        }
        self.write_idx = (self.write_idx + 1) % WINDOW_SAMPLES;
        (slot, evict)
    }

    /// How many samples the window holds.
    pub fn count(&self) -> (r: u32)
        requires
            self.wf(),
        ensures
            r == self.spec_filled(),
    {
        self.filled as u32
    }

    /// Empty the window.
    pub fn reset(&mut self)
        ensures
            final(self).wf(),
            final(self).spec_write_idx() == 0,
            final(self).spec_filled() == 0,
    {
        self.write_idx = 0;
        self.filled = 0;
    }
}

/// The slot cursor and fill count after `k` samples from empty.
pub open spec fn window_after(k: nat) -> (int, int) {
    (k as int % WINDOW_SAMPLES as int, if k < WINDOW_SAMPLES { k as int } else { WINDOW_SAMPLES as int })
}

/// Pushing onto the window after `k` samples gives the window after
/// `k + 1`: slots rotate, the count saturates at [`WINDOW_SAMPLES`], and
/// from the sixteenth sample on every push evicts the oldest.
pub proof fn lemma_push_advances(k: nat)
    ensures
        (window_after(k).0 + 1) % (WINDOW_SAMPLES as int) == window_after(k + 1).0,
        (if window_after(k).1 == WINDOW_SAMPLES { WINDOW_SAMPLES as int } else { window_after(k).1 + 1 })
            == window_after(k + 1).1,
        (window_after(k).1 == WINDOW_SAMPLES) == (k >= WINDOW_SAMPLES),
{
}

} // verus!
