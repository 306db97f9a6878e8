//! Turns button press/release edges into "tap" and "hold" events.
//!
//! An edge is read off a debounced, timestamped key-scan queue, so it is
//! never missed; what is not an edge, "still held after `hold_ms`", is
//! checked on every poll. A tap fires on release, so a hold does not also
//! register as a tap. A release is only final once it has outlasted a
//! grace window: a same-key re-press inside it is contact bounce in the
//! middle of a hold and keeps the original press time.
use vstd::prelude::*;

verus! {

/// Default time a key must stay down to count as a hold.
pub const DEFAULT_HOLD_MS: u32 = 2000;

/// Default time a release must last before it counts.
pub const DEFAULT_GRACE_MS: u32 = 250;

/// A raw press/release edge, as read off a debounced key-scan queue.
#[derive(Debug, Clone, Copy, PartialEq, Eq, Structural)]
pub struct KeyEvent {
    pub key_number: usize,
    pub pressed: bool,
}

/// A dispatched button event.
#[derive(Debug, Clone, Copy, PartialEq, Eq, Structural)]
pub enum Edge {
    Tap,
    Hold,
}

/// What is tracked for one key.
#[derive(Debug, Clone, Copy, PartialEq, Eq, Structural)]
pub struct KeyState {
    /// Time of the original press, while the key is considered down.
    pub down_since: Option<u32>,
    /// Time of a release that is not final yet.
    pub released_at: Option<u32>,
    /// Whether this press has already fired its hold.
    pub hold_fired: bool,
}

/// A key with nothing going on.
pub open spec fn idle_key() -> KeyState {
    KeyState { down_since: None, released_at: None, hold_fired: false }
}

/// A pending release or a fired hold both belong to a press in progress.
pub open spec fn key_state_ok(s: KeyState) -> bool {
    &&& s.released_at is Some ==> s.down_since is Some
    &&& s.hold_fired ==> s.down_since is Some
}

/// One key after a press (`pressed`) or release edge at `now`. A press
/// while the key is already down is bounce: the original press time is
/// kept and the pending release forgotten. A release of a key that is not
/// down is ignored.
pub open spec fn key_after_edge(s: KeyState, pressed: bool, now: u32) -> KeyState {
    if pressed {
        if s.down_since is None {
            KeyState { down_since: Some(now), released_at: None, hold_fired: false }
        } else {
            KeyState { released_at: None, ..s }
        }
    } else if s.down_since is Some {
        KeyState { released_at: Some(now), ..s }
    } else {
        s
    }
}

/// All keys after event `e`; an event for a key number out of range is
/// ignored.
pub open spec fn keys_after_event(keys: Seq<KeyState>, e: KeyEvent, now: u32) -> Seq<KeyState> {
    if e.key_number < keys.len() {
        keys.update(e.key_number as int, key_after_edge(keys[e.key_number as int], e.pressed, now))
    } else {
        keys
    }
}

/// All keys after the events, in order.
pub open spec fn keys_after_events(keys: Seq<KeyState>, events: Seq<KeyEvent>, now: u32) -> Seq<
    KeyState,
>
    decreases events.len(),
{
    if events.len() == 0 {
        keys
    } else {
        keys_after_event(keys_after_events(keys, events.drop_last(), now), events.last(), now)
    }
}

/// Whether the pending release of `s` has outlasted the grace window.
pub open spec fn release_final(s: KeyState, now: u32, grace: u32) -> bool {
    s.released_at matches Some(r) && now.wrapping_sub(r) >= grace
}

/// Whether finalizing the release of `s` is a tap: the press had not
/// fired a hold.
pub open spec fn emits_tap(s: KeyState, now: u32, grace: u32) -> bool {
    release_final(s, now, grace) && s.down_since is Some && !s.hold_fired
}

/// `s` after its release, if final, is turned into a tap or dropped.
pub open spec fn key_after_release(s: KeyState, now: u32, grace: u32) -> KeyState {
    if release_final(s, now, grace) {
        idle_key()
    } else {
        s
    }
}

/// Whether `s` has been down for `hold` ms without firing its hold.
pub open spec fn hold_due(s: KeyState, now: u32, hold: u32) -> bool {
    s.down_since matches Some(t) && !s.hold_fired && now.wrapping_sub(t) >= hold
}

/// `s` after firing its hold, if due.
pub open spec fn key_after_hold(s: KeyState, now: u32, hold: u32) -> KeyState {
    if hold_due(s, now, hold) {
        KeyState { hold_fired: true, ..s }
    } else {
        s
    }
}

/// The taps of the first `n` keys, in key order.
pub open spec fn taps(keys: Seq<KeyState>, now: u32, grace: u32, n: nat) -> Seq<(usize, Edge)>
    decreases n,
{
    if n == 0 {
        Seq::empty()
    } else {
        taps(keys, now, grace, (n - 1) as nat) + if emits_tap(keys[n - 1], now, grace) {
            seq![((n - 1) as usize, Edge::Tap)]
        } else {
            Seq::empty()
        }
    }
}

/// The holds of the first `n` keys, in key order.
pub open spec fn holds(keys: Seq<KeyState>, now: u32, hold: u32, n: nat) -> Seq<(usize, Edge)>
    decreases n,
{
    if n == 0 {
        Seq::empty()
    } else {
        holds(keys, now, hold, (n - 1) as nat) + if hold_due(keys[n - 1], now, hold) {
            seq![((n - 1) as usize, Edge::Hold)]
        } else {
            Seq::empty()
        }
    }
}

/// Keys after the events, with final releases applied.
pub open spec fn keys_released(keys: Seq<KeyState>, events: Seq<KeyEvent>, now: u32, grace: u32) -> Seq<
    KeyState,
> {
    keys_after_events(keys, events, now).map_values(|s: KeyState| key_after_release(s, now, grace))
}

/// Keys after a whole poll.
pub open spec fn keys_after_poll(
    keys: Seq<KeyState>,
    events: Seq<KeyEvent>,
    now: u32,
    grace: u32,
    hold: u32,
) -> Seq<KeyState> {
    keys_released(keys, events, now, grace).map_values(|s: KeyState| key_after_hold(s, now, hold))
}

/// Edges dispatched by a poll: the taps of final releases in key order,
/// then the holds that came due in key order.
pub open spec fn poll_edges(
    keys: Seq<KeyState>,
    events: Seq<KeyEvent>,
    now: u32,
    grace: u32,
    hold: u32,
) -> Seq<(usize, Edge)> {
    let k1 = keys_after_events(keys, events, now);
    let k2 = keys_released(keys, events, now, grace);
    taps(k1, now, grace, k1.len()) + holds(k2, now, hold, k2.len())
}


proof fn lemma_taps(keys: Seq<KeyState>, now: u32, grace: u32, n: nat)
    requires
        n <= keys.len() <= usize::MAX,
    ensures
        forall|i: int|
            0 <= i < taps(keys, now, grace, n).len() ==> {
                let e = #[trigger] taps(keys, now, grace, n)[i];
                &&& e.0 < n
                &&& e.1 == Edge::Tap
                &&& emits_tap(keys[e.0 as int], now, grace)
            },
        forall|i: int, j: int|
            0 <= i < j < taps(keys, now, grace, n).len() ==> #[trigger] taps(keys, now, grace, n)[i].0
                < #[trigger] taps(keys, now, grace, n)[j].0,
    decreases n,
{
    if n > 0 {
        lemma_taps(keys, now, grace, (n - 1) as nat);
        let prev = taps(keys, now, grace, (n - 1) as nat);
        let cur = taps(keys, now, grace, n);
        assert forall|i: int| 0 <= i < cur.len() implies {
            let e = #[trigger] cur[i];
            &&& e.0 < n
            &&& e.1 == Edge::Tap
            &&& emits_tap(keys[e.0 as int], now, grace)
        } by {
            if i < prev.len() {
                assert(cur[i] == prev[i]);
            } else {
                assert(cur[i] == ((n - 1) as usize, Edge::Tap));
            }
        }
        assert forall|i: int, j: int| 0 <= i < j < cur.len() implies #[trigger] cur[i].0 < #[trigger] cur[j].0 by {
            assert(cur[i] == prev[i]);
            if j < prev.len() {
                assert(cur[j] == prev[j]);
            } else {
                assert(cur[j] == ((n - 1) as usize, Edge::Tap));
            }
        }
    }
}

proof fn lemma_holds(keys: Seq<KeyState>, now: u32, hold: u32, n: nat)
    requires
        n <= keys.len() <= usize::MAX,
    ensures
        forall|i: int|
            0 <= i < holds(keys, now, hold, n).len() ==> {
                let e = #[trigger] holds(keys, now, hold, n)[i];
                &&& e.0 < n
                &&& e.1 == Edge::Hold
                &&& hold_due(keys[e.0 as int], now, hold)
            },
        forall|i: int, j: int|
            0 <= i < j < holds(keys, now, hold, n).len() ==> #[trigger] holds(keys, now, hold, n)[i].0
                < #[trigger] holds(keys, now, hold, n)[j].0,
    decreases n,
{
    if n > 0 {
        lemma_holds(keys, now, hold, (n - 1) as nat);
        let prev = holds(keys, now, hold, (n - 1) as nat);
        let cur = holds(keys, now, hold, n);
        assert forall|i: int| 0 <= i < cur.len() implies {
            let e = #[trigger] cur[i];
            &&& e.0 < n
            &&& e.1 == Edge::Hold
            &&& hold_due(keys[e.0 as int], now, hold)
        } by {
            if i < prev.len() {
                assert(cur[i] == prev[i]);
            } else {
                assert(cur[i] == ((n - 1) as usize, Edge::Hold));
            }
        }
        assert forall|i: int, j: int| 0 <= i < j < cur.len() implies #[trigger] cur[i].0 < #[trigger] cur[j].0 by {
            assert(cur[i] == prev[i]);
            if j < prev.len() {
                assert(cur[j] == prev[j]);
            }
        }
    }
}

proof fn lemma_events_keep_len(keys: Seq<KeyState>, events: Seq<KeyEvent>, now: u32)
    ensures
        keys_after_events(keys, events, now).len() == keys.len(),
    decreases events.len(),
{
    if events.len() > 0 {
        lemma_events_keep_len(keys, events.drop_last(), now);
    }
}

proof fn lemma_events_keep_fired_hold(keys: Seq<KeyState>, events: Seq<KeyEvent>, now: u32, k: int)
    requires
        0 <= k < keys.len() <= usize::MAX,
        keys[k].hold_fired,
        key_state_ok(keys[k]),
    ensures
        keys_after_events(keys, events, now)[k].hold_fired,
        key_state_ok(keys_after_events(keys, events, now)[k]),
    decreases events.len(),
{
    lemma_events_keep_len(keys, events, now);
    if events.len() > 0 {
        lemma_events_keep_fired_hold(keys, events.drop_last(), now, k);
        lemma_events_keep_len(keys, events.drop_last(), now);
    }
}

/// A poll dispatches at most one edge per key: a tap finalizes the press,
/// so the same key cannot also fire a hold in that poll.
pub proof fn lemma_poll_one_edge_per_key(
    keys: Seq<KeyState>,
    events: Seq<KeyEvent>,
    now: u32,
    grace: u32,
    hold: u32,
)
    requires
        keys.len() <= usize::MAX,
    ensures
        forall|i: int, j: int|
            0 <= i < j < poll_edges(keys, events, now, grace, hold).len() ==> #[trigger] poll_edges(
                keys,
                events,
                now,
                grace,
                hold,
            )[i].0 != #[trigger] poll_edges(keys, events, now, grace, hold)[j].0,
{
    let k1 = keys_after_events(keys, events, now);
    let k2 = keys_released(keys, events, now, grace);
    lemma_events_keep_len(keys, events, now);
    let t = taps(k1, now, grace, k1.len());
    let h = holds(k2, now, hold, k2.len());
    lemma_taps(k1, now, grace, k1.len());
    lemma_holds(k2, now, hold, k2.len());
    let out = poll_edges(keys, events, now, grace, hold);
    assert(out == t + h);
    assert forall|i: int, j: int| 0 <= i < j < out.len() implies #[trigger] out[i].0 != #[trigger] out[j].0 by {
        if j < t.len() {
            assert(t[i].0 < t[j].0);
        } else if i >= t.len() {
            assert(h[i - t.len()].0 < h[j - t.len()].0);
        } else {
            let k = t[i].0 as int;
            assert(emits_tap(k1[k], now, grace));
            assert(k2[k] == idle_key());
            let hk = h[j - t.len()].0 as int;
            assert(hold_due(k2[hk], now, hold));
        }
    }
}

/// Once a press has fired its hold, a poll dispatches nothing more for
/// that key: its release is not also a tap, and the hold does not fire
/// again while the key stays down (a re-press inside the grace window is
/// bounce of the same press).
pub proof fn lemma_fired_hold_is_silent(
    keys: Seq<KeyState>,
    events: Seq<KeyEvent>,
    now: u32,
    grace: u32,
    hold: u32,
    k: int,
)
    requires
        0 <= k < keys.len() <= usize::MAX,
        keys[k].hold_fired,
        key_state_ok(keys[k]),
    ensures
        forall|i: int|
            0 <= i < poll_edges(keys, events, now, grace, hold).len() ==> #[trigger] poll_edges(
                keys,
                events,
                now,
                grace,
                hold,
            )[i].0 != k,
{
    let k1 = keys_after_events(keys, events, now);
    let k2 = keys_released(keys, events, now, grace);
    lemma_events_keep_len(keys, events, now);
    lemma_events_keep_fired_hold(keys, events, now, k);
    let t = taps(k1, now, grace, k1.len());
    let h = holds(k2, now, hold, k2.len());
    lemma_taps(k1, now, grace, k1.len());
    lemma_holds(k2, now, hold, k2.len());
    let out = poll_edges(keys, events, now, grace, hold);
    assert(out == t + h);
    assert forall|i: int| 0 <= i < out.len() implies #[trigger] out[i].0 != k by {
        if i < t.len() {
            assert(emits_tap(k1[t[i].0 as int], now, grace));
        } else {
            assert(hold_due(k2[h[i - t.len()].0 as int], now, hold));
        }
    }
}

proof fn lemma_events_keep_ok(keys: Seq<KeyState>, events: Seq<KeyEvent>, now: u32, k: int)
    requires
        0 <= k < keys.len(),
        key_state_ok(keys[k]),
    ensures
        key_state_ok(keys_after_events(keys, events, now)[k]),
    decreases events.len(),
{
    lemma_events_keep_len(keys, events, now);
    if events.len() > 0 {
        lemma_events_keep_ok(keys, events.drop_last(), now, k);
        lemma_events_keep_len(keys, events.drop_last(), now);
    }
}

/// The edges a poll dispatches for key `k`, and the key's state after the
/// poll: a tap ends the press (the key is idle again), a hold marks it
/// fired, and a fired press stays fired until it ends.
proof fn lemma_poll_key(
    keys: Seq<KeyState>,
    events: Seq<KeyEvent>,
    now: u32,
    grace: u32,
    hold: u32,
    k: int,
)
    requires
        0 <= k < keys.len() <= usize::MAX,
        key_state_ok(keys[k]),
    ensures
        keys_after_poll(keys, events, now, grace, hold).len() == keys.len(),
        key_state_ok(keys_after_poll(keys, events, now, grace, hold)[k]),
        keys[k].hold_fired ==> keys_after_poll(keys, events, now, grace, hold)[k].hold_fired
            || keys_after_poll(keys, events, now, grace, hold)[k] == idle_key(),
        forall|i: int|
            0 <= i < poll_edges(keys, events, now, grace, hold).len() && #[trigger] poll_edges(
                keys,
                events,
                now,
                grace,
                hold,
            )[i].0 == k ==> (if poll_edges(keys, events, now, grace, hold)[i].1 == Edge::Tap {
                keys_after_poll(keys, events, now, grace, hold)[k] == idle_key()
            } else {
                keys_after_poll(keys, events, now, grace, hold)[k].hold_fired
            }),
{
    let k1 = keys_after_events(keys, events, now);
    let k2 = keys_released(keys, events, now, grace);
    let k3 = keys_after_poll(keys, events, now, grace, hold);
    lemma_events_keep_len(keys, events, now);
    lemma_events_keep_ok(keys, events, now, k);
    if keys[k].hold_fired {
        lemma_events_keep_fired_hold(keys, events, now, k);
    }
    assert(k2[k] == key_after_release(k1[k], now, grace));
    assert(k3[k] == key_after_hold(k2[k], now, hold));
    let t = taps(k1, now, grace, k1.len());
    let h = holds(k2, now, hold, k2.len());
    lemma_taps(k1, now, grace, k1.len());
    lemma_holds(k2, now, hold, k2.len());
    let out = poll_edges(keys, events, now, grace, hold);
    assert(out == t + h);
    assert forall|i: int| 0 <= i < out.len() && #[trigger] out[i].0 == k implies (if out[i].1 == Edge::Tap {
        k3[k] == idle_key()
    } else {
        k3[k].hold_fired
    }) by {
        if i < t.len() {
            assert(out[i] == t[i]);
            assert(emits_tap(k1[k], now, grace));
        } else {
            assert(out[i] == h[i - t.len()]);
            assert(hold_due(k2[k], now, hold));
        }
    }
}

/// Keys after a run of polls, each given as its events and its time.
pub open spec fn keys_after_polls(
    keys: Seq<KeyState>,
    polls: Seq<(Seq<KeyEvent>, u32)>,
    grace: u32,
    hold: u32,
) -> Seq<KeyState>
    decreases polls.len(),
{
    if polls.len() == 0 {
        keys
    } else {
        keys_after_poll(
            keys_after_polls(keys, polls.drop_last(), grace, hold),
            polls.last().0,
            polls.last().1,
            grace,
            hold,
        )
    }
}

/// The edges dispatched by poll `m` of a run of polls.
pub open spec fn edges_of_poll(
    keys: Seq<KeyState>,
    polls: Seq<(Seq<KeyEvent>, u32)>,
    grace: u32,
    hold: u32,
    m: int,
) -> Seq<(usize, Edge)> {
    poll_edges(keys_after_polls(keys, polls.take(m), grace, hold), polls[m].0, polls[m].1, grace, hold)
}

proof fn lemma_polls_step(keys: Seq<KeyState>, polls: Seq<(Seq<KeyEvent>, u32)>, grace: u32, hold: u32, m: int)
    requires
        0 <= m < polls.len(),
    ensures
        keys_after_polls(keys, polls.take(m + 1), grace, hold) == keys_after_poll(
            keys_after_polls(keys, polls.take(m), grace, hold),
            polls[m].0,
            polls[m].1,
            grace,
            hold,
        ),
{
    assert(polls.take(m + 1).drop_last() =~= polls.take(m));
    assert(polls.take(m + 1).last() == polls[m]);
}

proof fn lemma_polls_keep_ok(
    keys: Seq<KeyState>,
    polls: Seq<(Seq<KeyEvent>, u32)>,
    grace: u32,
    hold: u32,
    k: int,
    m: int,
)
    requires
        0 <= k < keys.len() <= usize::MAX,
        key_state_ok(keys[k]),
        0 <= m <= polls.len(),
    ensures
        keys_after_polls(keys, polls.take(m), grace, hold).len() == keys.len(),
        key_state_ok(keys_after_polls(keys, polls.take(m), grace, hold)[k]),
    decreases m,
{
    if m == 0 {
        assert(polls.take(0) =~= Seq::<(Seq<KeyEvent>, u32)>::empty());
    } else {
        lemma_polls_keep_ok(keys, polls, grace, hold, k, m - 1);
        lemma_polls_step(keys, polls, grace, hold, m - 1);
        lemma_poll_key(
            keys_after_polls(keys, polls.take(m - 1), grace, hold),
            polls[m - 1].0,
            polls[m - 1].1,
            grace,
            hold,
            k,
        );
    }
}

proof fn lemma_fired_persists(
    keys: Seq<KeyState>,
    polls: Seq<(Seq<KeyEvent>, u32)>,
    grace: u32,
    hold: u32,
    k: int,
    i: int,
    m: int,
)
    requires
        0 <= k < keys.len() <= usize::MAX,
        key_state_ok(keys[k]),
        0 <= i < m <= polls.len(),
        keys_after_polls(keys, polls.take(i + 1), grace, hold)[k].hold_fired,
        forall|n: int| i < n <= m ==> #[trigger] keys_after_polls(keys, polls.take(n), grace, hold)[k] != idle_key(),
    ensures
        keys_after_polls(keys, polls.take(m), grace, hold)[k].hold_fired,
    decreases m - i,
{
    if m > i + 1 {
        lemma_fired_persists(keys, polls, grace, hold, k, i, m - 1);
        lemma_polls_keep_ok(keys, polls, grace, hold, k, m - 1);
        lemma_polls_step(keys, polls, grace, hold, m - 1);
        lemma_poll_key(
            keys_after_polls(keys, polls.take(m - 1), grace, hold),
            polls[m - 1].0,
            polls[m - 1].1,
            grace,
            hold,
            k,
        );
        assert(keys_after_polls(keys, polls.take(m), grace, hold)[k] != idle_key());
    }
}

/// Within one press cycle a key fires at most one event: a single hold
/// (never repeated while the key is held) or a single tap when its
/// release becomes final, never both. Over any run of polls, two events
/// of the same key in different polls are always separated by the key
/// going idle again, that is by the end of one press cycle and a new
/// press; a bounced re-press inside the grace window stays in the same
/// cycle. (Within one poll, see [`lemma_poll_one_edge_per_key`].)
pub proof fn lemma_one_edge_per_press_cycle(
    keys: Seq<KeyState>,
    polls: Seq<(Seq<KeyEvent>, u32)>,
    grace: u32,
    hold: u32,
    k: int,
    i: int,
    j: int,
    a: int,
    b: int,
)
    requires
        0 <= k < keys.len() <= usize::MAX,
        key_state_ok(keys[k]),
        0 <= i < j < polls.len(),
        0 <= a < edges_of_poll(keys, polls, grace, hold, i).len(),
        edges_of_poll(keys, polls, grace, hold, i)[a].0 == k,
        0 <= b < edges_of_poll(keys, polls, grace, hold, j).len(),
        edges_of_poll(keys, polls, grace, hold, j)[b].0 == k,
    ensures
        exists|m: int| i < m <= j && #[trigger] keys_after_polls(keys, polls.take(m), grace, hold)[k] == idle_key(),
{
    let before_i = keys_after_polls(keys, polls.take(i), grace, hold);
    lemma_polls_keep_ok(keys, polls, grace, hold, k, i);
    lemma_polls_step(keys, polls, grace, hold, i);
    lemma_poll_key(before_i, polls[i].0, polls[i].1, grace, hold, k);
    let ei = edges_of_poll(keys, polls, grace, hold, i);
    assert(ei[a].0 == k);
    let after_i = keys_after_polls(keys, polls.take(i + 1), grace, hold);
    if after_i[k] == idle_key() {
        assert(keys_after_polls(keys, polls.take(i + 1), grace, hold)[k] == idle_key());
    } else {
        assert(after_i[k].hold_fired);
        if !(exists|m: int| i < m <= j && #[trigger] keys_after_polls(keys, polls.take(m), grace, hold)[k] == idle_key()) {
            lemma_fired_persists(keys, polls, grace, hold, k, i, j);
            let before_j = keys_after_polls(keys, polls.take(j), grace, hold);
            lemma_polls_keep_ok(keys, polls, grace, hold, k, j);
            lemma_fired_hold_is_silent(before_j, polls[j].0, polls[j].1, grace, hold, k);
            let ej = edges_of_poll(keys, polls, grace, hold, j);
            assert(ej[b].0 != k);
        }
    }
}

/// `t` moved by `c` ms on the wrapping millisecond clock.
pub open spec fn shift_time(t: Option<u32>, c: u32) -> Option<u32> {
    match t {
        Some(x) => Some(x.wrapping_add(c)),
        None => None,
    }
}

/// A key's state with its timestamps moved by `c` ms.
pub open spec fn shift_key(s: KeyState, c: u32) -> KeyState {
    KeyState { down_since: shift_time(s.down_since, c), released_at: shift_time(s.released_at, c), hold_fired: s.hold_fired }
}

/// All keys with their timestamps moved by `c` ms.
pub open spec fn shift_keys(keys: Seq<KeyState>, c: u32) -> Seq<KeyState> {
    keys.map_values(|s: KeyState| shift_key(s, c))
}

/// A run of polls with every poll time moved by `c` ms.
pub open spec fn shift_polls(polls: Seq<(Seq<KeyEvent>, u32)>, c: u32) -> Seq<(Seq<KeyEvent>, u32)> {
    polls.map_values(|p: (Seq<KeyEvent>, u32)| (p.0, p.1.wrapping_add(c)))
}

proof fn lemma_wrapping_shift(a: u32, b: u32, c: u32)
    ensures
        a.wrapping_add(c).wrapping_sub(b.wrapping_add(c)) == a.wrapping_sub(b),
{
}

proof fn lemma_shift_events(keys: Seq<KeyState>, events: Seq<KeyEvent>, now: u32, c: u32)
    ensures
        keys_after_events(shift_keys(keys, c), events, now.wrapping_add(c)) == shift_keys(
            keys_after_events(keys, events, now),
            c,
        ),
    decreases events.len(),
{
    if events.len() > 0 {
        lemma_shift_events(keys, events.drop_last(), now, c);
        let prev = keys_after_events(keys, events.drop_last(), now);
        lemma_events_keep_len(keys, events.drop_last(), now);
        let e = events.last();
        if e.key_number < prev.len() {
            let s = prev[e.key_number as int];
            assert(key_after_edge(shift_key(s, c), e.pressed, now.wrapping_add(c)) == shift_key(
                key_after_edge(s, e.pressed, now),
                c,
            ));
            assert(shift_keys(prev, c).update(e.key_number as int, shift_key(key_after_edge(s, e.pressed, now), c))
                =~= shift_keys(prev.update(e.key_number as int, key_after_edge(s, e.pressed, now)), c));
        }
    }
}

proof fn lemma_shift_key_steps(s: KeyState, now: u32, grace: u32, hold: u32, c: u32)
    ensures
        release_final(shift_key(s, c), now.wrapping_add(c), grace) == release_final(s, now, grace),
        emits_tap(shift_key(s, c), now.wrapping_add(c), grace) == emits_tap(s, now, grace),
        key_after_release(shift_key(s, c), now.wrapping_add(c), grace) == shift_key(
            key_after_release(s, now, grace),
            c,
        ),
        hold_due(shift_key(s, c), now.wrapping_add(c), hold) == hold_due(s, now, hold),
        key_after_hold(shift_key(s, c), now.wrapping_add(c), hold) == shift_key(key_after_hold(s, now, hold), c),
{
    if let Some(r) = s.released_at {
        lemma_wrapping_shift(now, r, c);
    }
    if let Some(t) = s.down_since {
        lemma_wrapping_shift(now, t, c);
    }
}

proof fn lemma_shift_taps(keys: Seq<KeyState>, now: u32, grace: u32, c: u32, n: nat)
    requires
        n <= keys.len(),
    ensures
        taps(shift_keys(keys, c), now.wrapping_add(c), grace, n) == taps(keys, now, grace, n),
    decreases n,
{
    if n > 0 {
        lemma_shift_taps(keys, now, grace, c, (n - 1) as nat);
        lemma_shift_key_steps(keys[n - 1], now, grace, 0, c);
    }
}

proof fn lemma_shift_holds(keys: Seq<KeyState>, now: u32, hold: u32, c: u32, n: nat)
    requires
        n <= keys.len(),
    ensures
        holds(shift_keys(keys, c), now.wrapping_add(c), hold, n) == holds(keys, now, hold, n),
    decreases n,
{
    if n > 0 {
        lemma_shift_holds(keys, now, hold, c, (n - 1) as nat);
        lemma_shift_key_steps(keys[n - 1], now, 0, hold, c);
    }
}

/// Moving every timestamp by the same amount on the wrapping millisecond
/// clock changes nothing a poll decides: it dispatches the same edges,
/// and the keys come out moved by that amount. Time is only ever compared
/// by wrapping differences, so a wrap of the clock is harmless.
pub proof fn lemma_poll_ignores_clock_shift(
    keys: Seq<KeyState>,
    events: Seq<KeyEvent>,
    now: u32,
    grace: u32,
    hold: u32,
    c: u32,
)
    ensures
        poll_edges(shift_keys(keys, c), events, now.wrapping_add(c), grace, hold) == poll_edges(
            keys,
            events,
            now,
            grace,
            hold,
        ),
        keys_after_poll(shift_keys(keys, c), events, now.wrapping_add(c), grace, hold) == shift_keys(
            keys_after_poll(keys, events, now, grace, hold),
            c,
        ),
{
    let n2 = now.wrapping_add(c);
    lemma_shift_events(keys, events, now, c);
    lemma_events_keep_len(keys, events, now);
    let k1 = keys_after_events(keys, events, now);
    let k2 = keys_released(keys, events, now, grace);
    assert forall|i: int| 0 <= i < k1.len() implies key_after_release(#[trigger] shift_keys(k1, c)[i], n2, grace)
        == shift_key(key_after_release(k1[i], now, grace), c) by {
        lemma_shift_key_steps(k1[i], now, grace, hold, c);
    }
    assert(keys_released(shift_keys(keys, c), events, n2, grace) =~= shift_keys(k2, c));
    assert forall|i: int| 0 <= i < k2.len() implies key_after_hold(#[trigger] shift_keys(k2, c)[i], n2, hold)
        == shift_key(key_after_hold(k2[i], now, hold), c) by {
        lemma_shift_key_steps(k2[i], now, grace, hold, c);
    }
    assert(keys_after_poll(shift_keys(keys, c), events, n2, grace, hold) =~= shift_keys(
        keys_after_poll(keys, events, now, grace, hold),
        c,
    ));
    lemma_shift_taps(k1, now, grace, c, k1.len());
    lemma_shift_holds(k2, now, hold, c, k2.len());
}

/// A tracker fed the same events with every poll time moved by `c` ms
/// (any `c`: the clock may wrap in between) dispatches the same edges at
/// every poll.
pub proof fn lemma_polls_ignore_clock_shift(
    keys: Seq<KeyState>,
    polls: Seq<(Seq<KeyEvent>, u32)>,
    grace: u32,
    hold: u32,
    c: u32,
    m: int,
)
    requires
        0 <= m <= polls.len(),
    ensures
        keys_after_polls(shift_keys(keys, c), shift_polls(polls, c).take(m), grace, hold) == shift_keys(
            keys_after_polls(keys, polls.take(m), grace, hold),
            c,
        ),
        m < polls.len() ==> edges_of_poll(shift_keys(keys, c), shift_polls(polls, c), grace, hold, m)
            == edges_of_poll(keys, polls, grace, hold, m),
    decreases m,
{
    let sp = shift_polls(polls, c);
    if m == 0 {
        assert(polls.take(0) =~= Seq::<(Seq<KeyEvent>, u32)>::empty());
        assert(sp.take(0) =~= Seq::<(Seq<KeyEvent>, u32)>::empty());
    } else {
        lemma_polls_ignore_clock_shift(keys, polls, grace, hold, c, m - 1);
        lemma_polls_step(keys, polls, grace, hold, m - 1);
        lemma_polls_step(shift_keys(keys, c), sp, grace, hold, m - 1);
        lemma_poll_ignores_clock_shift(
            keys_after_polls(keys, polls.take(m - 1), grace, hold),
            polls[m - 1].0,
            polls[m - 1].1,
            grace,
            hold,
            c,
        );
    }
    if m < polls.len() {
        lemma_poll_ignores_clock_shift(
            keys_after_polls(keys, polls.take(m), grace, hold),
            polls[m].0,
            polls[m].1,
            grace,
            hold,
            c,
        );
    }
}

/// Idle keys have no timestamps to move.
pub proof fn lemma_idle_keys_unshifted(n: nat, c: u32)
    ensures
        shift_keys(Seq::new(n, |k: int| idle_key()), c) == Seq::new(n, |k: int| idle_key()),
{
    assert(shift_keys(Seq::new(n, |k: int| idle_key()), c) =~= Seq::new(n, |k: int| idle_key()));
}

/// Tracks `N` independent keys (the handheld's physical buttons).
pub struct HoldTracker<const N: usize> {
    hold_ms: u32,
    grace_ms: u32,
    keys: Vec<KeyState>,
}

impl<const N: usize> HoldTracker<N> {
    /// The state of each key.
    pub closed spec fn keys(&self) -> Seq<KeyState> {
        self.keys@
    }

    /// The hold time this tracker was made with.
    pub closed spec fn spec_hold_ms(&self) -> u32 {
        self.hold_ms
    }

    /// The grace window this tracker was made with.
    pub closed spec fn spec_grace_ms(&self) -> u32 {
        self.grace_ms
    }

    /// One state per key, each consistent.
    pub open spec fn wf(&self) -> bool {
        &&& self.keys().len() == N
        &&& forall|k: int| 0 <= k < N ==> #[trigger] key_state_ok(self.keys()[k])
    }

    /// A tracker with the default timing.
    pub fn new() -> (r: Self)
        ensures
            r.wf(),
            r.spec_hold_ms() == DEFAULT_HOLD_MS,
            r.spec_grace_ms() == DEFAULT_GRACE_MS,
            r.keys() == Seq::new(N as nat, |k: int| idle_key()),
    {
        Self::with_timing(DEFAULT_HOLD_MS, DEFAULT_GRACE_MS)
    }

    /// A tracker with the given hold time and grace window, all keys idle.
    pub fn with_timing(hold_ms: u32, grace_ms: u32) -> (r: Self)
        ensures
            r.wf(),
            r.spec_hold_ms() == hold_ms,
            r.spec_grace_ms() == grace_ms,
            r.keys() == Seq::new(N as nat, |k: int| idle_key()),
    {
        let mut keys: Vec<KeyState> = Vec::new();
        let mut i: usize = 0;
        while i < N
            invariant
                i <= N,
                keys@ == Seq::new(i as nat, |k: int| idle_key()),
            decreases N - i,
        {
            keys.push(KeyState { down_since: None, released_at: None, hold_fired: false });
            i = i + 1;
            assert(keys@ =~= Seq::new(i as nat, |k: int| idle_key()));
        }
        HoldTracker { hold_ms, grace_ms, keys }
    }

    /// The hold time.
    pub fn hold_ms(&self) -> (r: u32)
        ensures
            r == self.spec_hold_ms(),
    {
        self.hold_ms
    }

    /// The grace window.
    pub fn grace_ms(&self) -> (r: u32)
        ensures
            r == self.spec_grace_ms(),
    {
        self.grace_ms
    }

    /// Take the queued edges and check for holds that came due, at time
    /// `now`. Returns the dispatched `(key_number, edge)` pairs in order
    /// (see [`poll_edges`]). Key numbers outside `0..N` are ignored.
    pub fn poll(&mut self, events: &[KeyEvent], now: u32) -> (r: Vec<(usize, Edge)>)
        requires
            old(self).wf(),
        ensures
            final(self).wf(),
            final(self).spec_hold_ms() == old(self).spec_hold_ms(),
            final(self).spec_grace_ms() == old(self).spec_grace_ms(),
            final(self).keys() == keys_after_poll(
                old(self).keys(),
                events@,
                now,
                old(self).spec_grace_ms(),
                old(self).spec_hold_ms(),
            ),
            r@ == poll_edges(
                old(self).keys(),
                events@,
                now,
                old(self).spec_grace_ms(),
                old(self).spec_hold_ms(),
            ),
    {
        let ghost keys0 = self.keys@;
        assert(events@.take(0) =~= Seq::<KeyEvent>::empty());
        let mut i: usize = 0;
        while i < events.len()
            invariant
                i <= events@.len(),
                self.keys@.len() == N,
                self.hold_ms == old(self).hold_ms,
                self.grace_ms == old(self).grace_ms,
                self.keys@ == keys_after_events(keys0, events@.take(i as int), now),
                forall|k: int| 0 <= k < N ==> #[trigger] key_state_ok(self.keys@[k]),
            decreases events@.len() - i,
        {
            let e = events[i];
            proof {
                assert(events@.take(i + 1).drop_last() =~= events@.take(i as int));
            }
            if e.key_number < self.keys.len() {
                let s = self.keys[e.key_number];
                let next = if e.pressed {
                    if s.down_since.is_none() {
                        KeyState { down_since: Some(now), released_at: None, hold_fired: false }
                    } else {
                        KeyState { released_at: None, ..s }
                    }
                } else if s.down_since.is_some() {
                    KeyState { released_at: Some(now), ..s }
                } else {
                    s
                };
                self.keys.set(e.key_number, next);
            }
            i = i + 1;
        }
        assert(events@.take(events@.len() as int) =~= events@);
        let ghost k1 = self.keys@;
        assert(k1 == keys_after_events(old(self).keys(), events@, now));
        let mut out: Vec<(usize, Edge)> = Vec::new();
        let mut key: usize = 0;
        while key < N
            invariant
                key <= N,
                k1.len() == N,
                self.keys@.len() == N,
                self.hold_ms == old(self).hold_ms,
                self.grace_ms == old(self).grace_ms,
                forall|k: int| key <= k < N ==> self.keys@[k] == k1[k],
                forall|k: int|
                    0 <= k < key ==> self.keys@[k] == key_after_release(
                        #[trigger] k1[k],
                        now,
                        self.grace_ms,
                    ),
                forall|k: int| 0 <= k < N ==> #[trigger] key_state_ok(self.keys@[k]),
                forall|k: int| 0 <= k < N ==> #[trigger] key_state_ok(k1[k]),
                out@ == taps(k1, now, self.grace_ms, key as nat),
            decreases N - key,
        {
            let s = self.keys[key];
            if let Some(released_at) = s.released_at {
                if now.wrapping_sub(released_at) >= self.grace_ms {
                    if s.down_since.is_some() && !s.hold_fired {
                        out.push((key, Edge::Tap));
                    }
                    self.keys.set(key, KeyState { down_since: None, released_at: None, hold_fired: false });
                }
            }
            key = key + 1;
        }
        assert(self.keys@ =~= k1.map_values(|s: KeyState| key_after_release(s, now, self.grace_ms)));
        let ghost k2 = self.keys@;
        let ghost tap_out = out@;
        let mut key: usize = 0;
        while key < N
            invariant
                key <= N,
                k2.len() == N,
                self.keys@.len() == N,
                self.hold_ms == old(self).hold_ms,
                self.grace_ms == old(self).grace_ms,
                forall|k: int| key <= k < N ==> self.keys@[k] == k2[k],
                forall|k: int|
                    0 <= k < key ==> self.keys@[k] == key_after_hold(
                        #[trigger] k2[k],
                        now,
                        self.hold_ms,
                    ),
                forall|k: int| 0 <= k < N ==> #[trigger] key_state_ok(self.keys@[k]),
                out@ == tap_out + holds(k2, now, self.hold_ms, key as nat),
            decreases N - key,
        {
            let s = self.keys[key];
            proof {
                assert(tap_out + holds(k2, now, self.hold_ms, key as nat) + seq![(key, Edge::Hold)]
                    =~= tap_out + (holds(k2, now, self.hold_ms, key as nat) + seq![(key, Edge::Hold)]));
                assert(holds(k2, now, self.hold_ms, key as nat) + Seq::<(usize, Edge)>::empty()
                    =~= holds(k2, now, self.hold_ms, key as nat));
            }
            if let Some(since) = s.down_since {
                if !s.hold_fired && now.wrapping_sub(since) >= self.hold_ms {
                    self.keys.set(key, KeyState { hold_fired: true, ..s });
                    out.push((key, Edge::Hold));
                }
            }
            key = key + 1;
        }
        assert(self.keys@ =~= k2.map_values(|s: KeyState| key_after_hold(s, now, self.hold_ms)));
        out
    }

    /// Poll once per entry of `polls`, in order, each with its events and
    /// time. Returns the edges of each poll. The timing stays as the
    /// tracker was made, and every poll's edges and the keys afterwards
    /// are those of the run of polls (see [`keys_after_polls`] and
    /// [`edges_of_poll`]), so the laws on runs of polls hold of it.
    pub fn poll_each(&mut self, polls: &[(Vec<KeyEvent>, u32)]) -> (r: Vec<Vec<(usize, Edge)>>)
        requires
            old(self).wf(),
        ensures
            final(self).wf(),
            final(self).spec_hold_ms() == old(self).spec_hold_ms(),
            final(self).spec_grace_ms() == old(self).spec_grace_ms(),
            final(self).keys() == keys_after_polls(
                old(self).keys(),
                polls_view(polls@),
                old(self).spec_grace_ms(),
                old(self).spec_hold_ms(),
            ),
            r@.len() == polls@.len(),
            forall|m: int|
                0 <= m < polls@.len() ==> (#[trigger] r@[m])@ == edges_of_poll(
                    old(self).keys(),
                    polls_view(polls@),
                    old(self).spec_grace_ms(),
                    old(self).spec_hold_ms(),
                    m,
                ),
    {
        let ghost k0 = self.keys();
        let ghost pv = polls_view(polls@);
        let ghost g = self.grace_ms;
        let ghost h = self.hold_ms;
        let mut out: Vec<Vec<(usize, Edge)>> = Vec::new();
        let mut i: usize = 0;
        proof {
            assert(pv.take(0) =~= Seq::<(Seq<KeyEvent>, u32)>::empty());
        }
        while i < polls.len()
            invariant
                i <= polls@.len(),
                pv == polls_view(polls@),
                self.wf(),
                self.spec_hold_ms() == h,
                self.spec_grace_ms() == g,
                h == old(self).spec_hold_ms(),
                g == old(self).spec_grace_ms(),
                k0 == old(self).keys(),
                self.keys() == keys_after_polls(k0, pv.take(i as int), g, h),
                out@.len() == i,
                forall|m: int| 0 <= m < i ==> (#[trigger] out@[m])@ == edges_of_poll(k0, pv, g, h, m),
            decreases polls@.len() - i,
        {
            let events = polls[i].0.as_slice();
            let now = polls[i].1;
            proof {
                lemma_polls_step(k0, pv, g, h, i as int);
                assert(pv[i as int] == (polls@[i as int].0@, polls@[i as int].1));
            }
            let edges = self.poll(events, now);
            out.push(edges);
            i = i + 1;
        }
        proof {
            assert(pv.take(polls@.len() as int) =~= pv);
        }
        out
    }
}

/// The events and time of each poll of a run given as vectors.
pub open spec fn polls_view(polls: Seq<(Vec<KeyEvent>, u32)>) -> Seq<(Seq<KeyEvent>, u32)> {
    polls.map_values(|p: (Vec<KeyEvent>, u32)| (p.0@, p.1))
}

} // verus!
