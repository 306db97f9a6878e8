use launchcast::hold_tracker::{Edge, HoldTracker, KeyEvent, DEFAULT_GRACE_MS, DEFAULT_HOLD_MS};

const BTN: usize = 0;

fn press() -> KeyEvent {
    KeyEvent { key_number: BTN, pressed: true }
}

fn release() -> KeyEvent {
    KeyEvent { key_number: BTN, pressed: false }
}

fn poll(tracker: &mut HoldTracker<1>, events: Vec<KeyEvent>, now: u32) -> Vec<(usize, Edge)> {
    tracker.poll(&events, now)
}

#[test]
fn defaults_are_2s_hold_and_250ms_grace() {
    let tracker: HoldTracker<1> = HoldTracker::new();
    assert_eq!(tracker.hold_ms(), DEFAULT_HOLD_MS);
    assert_eq!(DEFAULT_HOLD_MS, 2000);
    assert_eq!(tracker.grace_ms(), DEFAULT_GRACE_MS);
    assert_eq!(DEFAULT_GRACE_MS, 250);
}

#[test]
fn clean_tap_fires_after_grace_window_elapses() {
    let mut tracker: HoldTracker<1> = HoldTracker::with_timing(2000, 250);
    assert_eq!(poll(&mut tracker, vec![press()], 0), vec![]);
    assert_eq!(poll(&mut tracker, vec![release()], 100), vec![]);
    assert_eq!(poll(&mut tracker, vec![], 200), vec![]);
    assert_eq!(poll(&mut tracker, vec![], 351), vec![(BTN, Edge::Tap)]);
}

#[test]
fn tap_not_reported_twice() {
    let mut tracker: HoldTracker<1> = HoldTracker::with_timing(2000, 250);
    poll(&mut tracker, vec![press()], 0);
    poll(&mut tracker, vec![release()], 100);
    assert_eq!(poll(&mut tracker, vec![], 351), vec![(BTN, Edge::Tap)]);
    assert_eq!(poll(&mut tracker, vec![], 500), vec![]);
}

#[test]
fn hold_fires_once_hold_ms_elapses_while_pressed() {
    let mut tracker: HoldTracker<1> = HoldTracker::with_timing(2000, 250);
    poll(&mut tracker, vec![press()], 0);
    assert_eq!(poll(&mut tracker, vec![], 1999), vec![]);
    assert_eq!(poll(&mut tracker, vec![], 2000), vec![(BTN, Edge::Hold)]);
}

#[test]
fn hold_does_not_fire_twice_while_still_held() {
    let mut tracker: HoldTracker<1> = HoldTracker::with_timing(2000, 250);
    poll(&mut tracker, vec![press()], 0);
    assert_eq!(poll(&mut tracker, vec![], 2000), vec![(BTN, Edge::Hold)]);
    assert_eq!(poll(&mut tracker, vec![], 2500), vec![]);
}

#[test]
fn release_after_hold_fired_does_not_also_emit_a_tap() {
    let mut tracker: HoldTracker<1> = HoldTracker::with_timing(2000, 250);
    poll(&mut tracker, vec![press()], 0);
    poll(&mut tracker, vec![], 2000);
    poll(&mut tracker, vec![release()], 2100);
    assert_eq!(poll(&mut tracker, vec![], 2400), vec![]);
}

#[test]
fn bounce_mid_hold_does_not_reset_the_timer() {
    let mut tracker: HoldTracker<1> = HoldTracker::with_timing(2000, 250);
    poll(&mut tracker, vec![press()], 0);
    poll(&mut tracker, vec![release()], 100);
    poll(&mut tracker, vec![press()], 150);
    assert_eq!(poll(&mut tracker, vec![], 1999), vec![]);
    assert_eq!(poll(&mut tracker, vec![], 2000), vec![(BTN, Edge::Hold)]);
}

#[test]
fn bounce_mid_hold_does_not_emit_a_spurious_tap() {
    let mut tracker: HoldTracker<1> = HoldTracker::with_timing(2000, 250);
    poll(&mut tracker, vec![press()], 0);
    poll(&mut tracker, vec![release()], 100);
    poll(&mut tracker, vec![press()], 150);
    for now in [200, 350, 500, 1000] {
        assert_eq!(poll(&mut tracker, vec![], now), vec![]);
    }
}

#[test]
fn repeated_bounces_still_bridge_to_one_hold() {
    let mut tracker: HoldTracker<1> = HoldTracker::with_timing(2000, 250);
    poll(&mut tracker, vec![press()], 0);
    for t in [200, 600, 1200, 1800] {
        poll(&mut tracker, vec![release()], t);
        poll(&mut tracker, vec![press()], t + 10);
    }
    assert_eq!(poll(&mut tracker, vec![], 2000), vec![(BTN, Edge::Hold)]);
}

#[test]
fn release_that_survives_past_grace_is_a_real_release_not_a_bounce() {
    let mut tracker: HoldTracker<1> = HoldTracker::with_timing(2000, 250);
    poll(&mut tracker, vec![press()], 0);
    poll(&mut tracker, vec![release()], 100);
    assert_eq!(poll(&mut tracker, vec![], 351), vec![(BTN, Edge::Tap)]);
}

// --- Beyond the reference cases ------------------------------------------------

#[test]
fn out_of_range_keys_are_ignored() {
    let mut tracker: HoldTracker<2> = HoldTracker::with_timing(2000, 250);
    let stray = KeyEvent { key_number: 7, pressed: true };
    assert_eq!(tracker.poll(&[stray], 0), vec![]);
    assert_eq!(tracker.poll(&[], 5000), vec![]);
}

#[test]
fn taps_come_before_holds_in_key_order() {
    let mut tracker: HoldTracker<3> = HoldTracker::with_timing(2000, 250);
    let down = |k| KeyEvent { key_number: k, pressed: true };
    let up = |k| KeyEvent { key_number: k, pressed: false };
    tracker.poll(&[down(2), down(0)], 0);
    tracker.poll(&[down(1)], 1900);
    tracker.poll(&[up(1)], 1950);
    assert_eq!(tracker.poll(&[], 2200), vec![(1, Edge::Tap), (0, Edge::Hold), (2, Edge::Hold)]);
}

#[test]
fn one_edge_per_key_per_poll() {
    // Released long enough ago that the tap finalizes in the same poll in
    // which a hold would otherwise be due: only the tap is dispatched.
    let mut tracker: HoldTracker<1> = HoldTracker::with_timing(2000, 250);
    poll(&mut tracker, vec![press()], 0);
    assert_eq!(poll(&mut tracker, vec![release()], 1000), vec![]);
    assert_eq!(poll(&mut tracker, vec![], 3000), vec![(BTN, Edge::Tap)]);
}

#[test]
fn clock_wrap_is_handled() {
    let mut tracker: HoldTracker<1> = HoldTracker::with_timing(2000, 250);
    poll(&mut tracker, vec![press()], u32::MAX - 500);
    assert_eq!(poll(&mut tracker, vec![], 1499), vec![(BTN, Edge::Hold)]);
}

#[test]
fn a_press_cycle_fires_one_event_across_polls() {
    let mut tracker: HoldTracker<1> = HoldTracker::with_timing(2000, 250);
    let mut edges = Vec::new();
    edges.extend(poll(&mut tracker, vec![press()], 0));
    edges.extend(poll(&mut tracker, vec![], 2100));
    edges.extend(poll(&mut tracker, vec![release()], 2200));
    edges.extend(poll(&mut tracker, vec![press()], 2300)); // bounce, same cycle
    edges.extend(poll(&mut tracker, vec![], 5000));
    edges.extend(poll(&mut tracker, vec![release()], 5100));
    edges.extend(poll(&mut tracker, vec![], 6000));
    assert_eq!(edges, vec![(BTN, Edge::Hold)]);
    // A new press starts a new cycle.
    assert_eq!(poll(&mut tracker, vec![press(), release()], 7000), vec![]);
    assert_eq!(poll(&mut tracker, vec![], 7300), vec![(BTN, Edge::Tap)]);
}

#[test]
fn shifting_the_clock_across_its_wrap_changes_nothing() {
    let shift = u32::MAX - 1000;
    let script: Vec<(Vec<KeyEvent>, u32)> = vec![
        (vec![press()], 0),
        (vec![release()], 100),
        (vec![], 400),
        (vec![press()], 500),
        (vec![], 2600),
        (vec![release()], 2700),
        (vec![], 3000),
    ];
    let mut a: HoldTracker<1> = HoldTracker::with_timing(2000, 250);
    let mut b: HoldTracker<1> = HoldTracker::with_timing(2000, 250);
    for (events, now) in script {
        let ea = a.poll(&events, now);
        let eb = b.poll(&events, now.wrapping_add(shift));
        assert_eq!(ea, eb);
    }
}

#[test]
fn a_run_of_polls_keeps_the_timing_and_matches_single_polls() {
    let script: Vec<(Vec<KeyEvent>, u32)> = vec![
        (vec![press()], 0),
        (vec![], 2100),
        (vec![release()], 2200),
        (vec![], 2500),
        (vec![press(), release()], 3000),
        (vec![], 3300),
    ];
    let mut batch: HoldTracker<1> = HoldTracker::with_timing(2000, 250);
    let edges = batch.poll_each(&script);
    assert_eq!(batch.hold_ms(), 2000);
    assert_eq!(batch.grace_ms(), 250);
    let mut single: HoldTracker<1> = HoldTracker::with_timing(2000, 250);
    let one_by_one: Vec<Vec<(usize, Edge)>> = script.iter().map(|(e, t)| single.poll(e, *t)).collect();
    assert_eq!(edges, one_by_one);
    assert_eq!(edges, vec![vec![], vec![(BTN, Edge::Hold)], vec![], vec![], vec![], vec![(BTN, Edge::Tap)]]);
}
