//! The three handheld buttons (ARM/DISARM, CHIRP, MENU, key numbers 0 to
//! 2): level samples taken on a fixed debounce timer become press and
//! release edges, which a [`HoldTracker`] turns into taps and holds.
use vstd::prelude::*;
use crate::hold_tracker::{keys_after_poll, poll_edges, Edge, HoldTracker, KeyEvent};

verus! {

/// Sampling interval, which is also the debounce time.
pub const DEBOUNCE_MS: u64 = 50;

/// Number of buttons.
pub const BUTTON_COUNT: usize = 3;

/// The edges seen between the previous levels `prev` and the new sample
/// `now`, in key order.
pub open spec fn level_edges(prev: Seq<bool>, now: Seq<bool>, n: nat) -> Seq<KeyEvent>
    decreases n,
{
    if n == 0 {
        Seq::empty()
    } else {
        level_edges(prev, now, (n - 1) as nat) + if prev[n - 1] != now[n - 1] {
            seq![KeyEvent { key_number: (n - 1) as usize, pressed: now[n - 1] }]
        } else {
            Seq::empty()
        }
    }
}

/// The last sampled level of each button and the tap/hold tracker.
pub struct ButtonSampler {
    raw_pressed: Vec<bool>,
    tracker: HoldTracker<3>,
}

impl ButtonSampler {
    /// The last sampled levels.
    pub closed spec fn spec_levels(&self) -> Seq<bool> {
        self.raw_pressed@
    }

    /// The tracker.
    pub closed spec fn spec_tracker(&self) -> HoldTracker<3> {
        self.tracker
    }

    pub closed spec fn wf(&self) -> bool {
        self.raw_pressed@.len() == BUTTON_COUNT && self.tracker.wf()
    }

    /// All buttons up, default hold timing.
    pub fn new() -> (r: Self)
        ensures
            r.wf(),
            r.spec_levels() == seq![false, false, false],
            r.spec_tracker().spec_hold_ms() == crate::hold_tracker::DEFAULT_HOLD_MS,
            r.spec_tracker().spec_grace_ms() == crate::hold_tracker::DEFAULT_GRACE_MS,
    {
        let mut raw_pressed: Vec<bool> = Vec::new();
        raw_pressed.push(false);
        raw_pressed.push(false);
        raw_pressed.push(false);
        ButtonSampler { raw_pressed, tracker: HoldTracker::new() }
    }

    /// Take one sample (`pressed[k]` is whether button `k` is down) at
    /// `now_ms`, and return the taps and holds it dispatches.
    pub fn poll(&mut self, pressed: [bool; 3], now_ms: u32) -> (r: Vec<(usize, Edge)>)
        requires
            old(self).wf(),
        ensures
            final(self).wf(),
            final(self).spec_levels() == pressed@,
            r@ == poll_edges(
                old(self).spec_tracker().keys(),
                level_edges(old(self).spec_levels(), pressed@, 3),
                now_ms,
                old(self).spec_tracker().spec_grace_ms(),
                old(self).spec_tracker().spec_hold_ms(),
            ),
            final(self).spec_tracker().keys() == keys_after_poll(
                old(self).spec_tracker().keys(),
                level_edges(old(self).spec_levels(), pressed@, 3),
                now_ms,
                old(self).spec_tracker().spec_grace_ms(),
                old(self).spec_tracker().spec_hold_ms(),
            ),
            final(self).spec_tracker().spec_hold_ms() == old(self).spec_tracker().spec_hold_ms(),
            final(self).spec_tracker().spec_grace_ms() == old(self).spec_tracker().spec_grace_ms(),
    {
        let ghost prev = self.raw_pressed@;
        let mut events: Vec<KeyEvent> = Vec::new();
        let mut k: usize = 0;
        while k < BUTTON_COUNT
            invariant
                k <= BUTTON_COUNT,
                prev.len() == BUTTON_COUNT,
                self.raw_pressed@.len() == BUTTON_COUNT,
                self.tracker == old(self).tracker,
                forall|j: int| 0 <= j < k ==> self.raw_pressed@[j] == pressed@[j],
                forall|j: int| k <= j < BUTTON_COUNT ==> self.raw_pressed@[j] == prev[j],
                events@ == level_edges(prev, pressed@, k as nat),
            decreases BUTTON_COUNT - k,
        {
            let level = pressed[k];
            if level != self.raw_pressed[k] {
                self.raw_pressed.set(k, level);
                events.push(KeyEvent { key_number: k, pressed: level });
            } else {
                assert(level_edges(prev, pressed@, k as nat) + Seq::<KeyEvent>::empty() =~= level_edges(
                    prev,
                    pressed@,
                    k as nat,
                ));
            }
            k = k + 1;
        }
        assert(self.raw_pressed@ =~= pressed@);
        self.tracker.poll(events.as_slice(), now_ms)
    }
}

/// The log name of an edge.
pub fn edge_name(edge: Edge) -> (r: &'static str)
    ensures
        r == (match edge {
            Edge::Tap => "tap",
            Edge::Hold => "hold",
        }),
{
    match edge {
        Edge::Tap => "tap",
        Edge::Hold => "hold",
    }
}

} // verus!
