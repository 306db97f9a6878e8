//! Which screen is showing, and the cursor on the FLIGHTS list.
//!
//! FLIGHT, RECOVERY, DIAG and FLIGHTS cycle with MENU (`advance`/`back`,
//! modulo [`COUNT`]). SUMMARY is outside that rotation: it is reached only
//! by selecting a flight on FLIGHTS, and MENU from SUMMARY goes back to
//! FLIGHTS.
use vstd::prelude::*;

verus! {

pub const FLIGHT: u8 = 0;
pub const RECOVERY: u8 = 1;
pub const DIAG: u8 = 2;
pub const FLIGHTS: u8 = 3;
/// How many screens take part in the MENU rotation.
pub const COUNT: u8 = 4;
pub const SUMMARY: u8 = 4;

/// The name of screen `index` (0 to 4).
pub open spec fn screen_name(index: u8) -> &'static str {
    if index == FLIGHT {
        "FLIGHT"
    } else if index == RECOVERY {
        "RECOVERY"
    } else if index == DIAG {
        "DIAG"
    } else if index == FLIGHTS {
        "FLIGHTS"
    } else {
        "SUMMARY"
    }
}

/// The screen MENU leads to from `current`: back to FLIGHTS from
/// SUMMARY, otherwise the next one in the rotation.
pub open spec fn menu_target(current: u8) -> u8 {
    if current == SUMMARY {
        FLIGHTS
    } else {
        ((current + 1) % (COUNT as int)) as u8
    }
}

/// The screen before `current` in the rotation.
pub open spec fn back_target(current: u8) -> u8 {
    ((current + COUNT - 1) % (COUNT as int)) as u8
}

/// The screen being shown and the FLIGHTS list cursor.
#[derive(Debug, Clone, Copy, PartialEq, Eq, Structural)]
pub struct ScreenState {
    current: u8,
    selected: u8,
}

impl ScreenState {
    /// The screen being shown.
    pub closed spec fn spec_current(&self) -> u8 {
        self.current
    }

    /// The FLIGHTS list cursor.
    pub closed spec fn spec_selected(&self) -> u8 {
        self.selected
    }

    /// A real screen, and a cursor that can still move.
    pub open spec fn wf(&self) -> bool {
        self.spec_current() <= SUMMARY && self.spec_selected() < 255
    }

    /// FLIGHT showing, cursor at the top.
    pub fn new() -> (r: Self)
        ensures
            r.wf(),
            r.spec_current() == FLIGHT,
            r.spec_selected() == 0,
    {
        ScreenState { current: FLIGHT, selected: 0 }
    }
}

/// The screen being shown.
pub fn current(s: &ScreenState) -> (r: u8)
    ensures
        r == s.spec_current(),
{
    s.current
}

/// The name of screen `index`, looked up directly (SUMMARY included).
pub fn name(index: u8) -> (r: &'static str)
    requires
        index <= SUMMARY,
    ensures
        r == screen_name(index),
{
    if index == FLIGHT {
        "FLIGHT"
    } else if index == RECOVERY {
        "RECOVERY"
    } else if index == DIAG {
        "DIAG"
    } else if index == FLIGHTS {
        "FLIGHTS"
    } else {
        "SUMMARY"
    }
}

pub fn current_name(s: &ScreenState) -> (r: &'static str)
    requires
        s.wf(),
    ensures
        r == screen_name(s.spec_current()),
{
    name(s.current)
}

/// The name of the screen a MENU tap leads to.
pub fn next_name(s: &ScreenState) -> (r: &'static str)
    requires
        s.wf(),
    ensures
        r == screen_name(menu_target(s.spec_current())),
{
    if s.current == SUMMARY {
        name(FLIGHTS)
    } else {
        name((s.current + 1) % COUNT)
    }
}

/// The name of the screen before this one in the rotation.
pub fn prev_name(s: &ScreenState) -> (r: &'static str)
    requires
        s.wf(),
    ensures
        r == screen_name(back_target(s.spec_current())),
{
    name((s.current + COUNT - 1) % COUNT)
}

/// MENU on a screen in the rotation: the next one.
pub fn advance(s: &mut ScreenState)
    requires
        old(s).wf(),
    ensures
        final(s).wf(),
        final(s).spec_current() == (old(s).spec_current() + 1) % (COUNT as int),
        final(s).spec_selected() == old(s).spec_selected(),
{
    s.current = (s.current + 1) % COUNT;
}

/// Back: the previous screen in the rotation.
pub fn back(s: &mut ScreenState)
    requires
        old(s).wf(),
    ensures
        final(s).wf(),
        final(s).spec_current() == back_target(old(s).spec_current()),
        final(s).spec_selected() == old(s).spec_selected(),
{
    s.current = (s.current + COUNT - 1) % COUNT;
}

/// Enter SUMMARY, after a flight was selected on FLIGHTS.
pub fn to_summary(s: &mut ScreenState)
    requires
        old(s).wf(),
    ensures
        final(s).wf(),
        final(s).spec_current() == SUMMARY,
        final(s).spec_selected() == old(s).spec_selected(),
{
    s.current = SUMMARY;
}

/// MENU on SUMMARY: back to FLIGHTS.
pub fn to_flights(s: &mut ScreenState)
    requires
        old(s).wf(),
    ensures
        final(s).wf(),
        final(s).spec_current() == FLIGHTS,
        final(s).spec_selected() == old(s).spec_selected(),
{
    s.current = FLIGHTS;
}

/// The FLIGHTS list cursor.
pub fn selected(s: &ScreenState) -> (r: u8)
    ensures
        r == s.spec_selected(),
{
    s.selected
}

/// Advance the FLIGHTS cursor, wrapping at `flight_count`; with no
/// flights the cursor goes to 0.
pub fn cycle_selected(s: &mut ScreenState, flight_count: u8)
    requires
        old(s).wf(),
    ensures
        final(s).wf(),
        final(s).spec_current() == old(s).spec_current(),
        final(s).spec_selected() == (if flight_count == 0 {
            0
        } else {
            (old(s).spec_selected() + 1) % (flight_count as int)
        }),
{
    if flight_count == 0 {
        s.selected = 0;
        return;
    }
    s.selected = (s.selected + 1) % flight_count;
}

/// Back undoes MENU on every screen of the rotation, and the footer's
/// MENU label names the screen a MENU tap actually leads to.
pub proof fn lemma_back_undoes_advance(c: u8)
    requires
        c < COUNT,
    ensures
        back_target(((c + 1) % (COUNT as int)) as u8) == c,
        menu_target(c) == (c + 1) % (COUNT as int),
{
}

/// With at least one flight, the cursor always lands on a flight.
pub proof fn lemma_cursor_in_range(sel: u8, flight_count: u8)
    requires
        flight_count > 0,
    ensures
        0 <= (sel + 1) % (flight_count as int) < flight_count,
{
}

} // verus!
