//! The ground station's button and radio decisions.
//!
//! Button events are first routed locally: screen navigation (MENU,
//! back, the FLIGHTS cursor) only touches the display and is never
//! forwarded. What is forwarded needs the radio, and is turned into one
//! action: refreshing or invalidating the flight cache, showing or
//! requesting a flight summary, or sending a command. ARM and DISARM
//! share one button (a hold): exactly ARMED means DISARM, any state past
//! it means RECOVER (DISARM on the wire), otherwise ARM, which is never
//! sent while a NO GO reason applies.
use vstd::prelude::*;
use crate::flight_index::{index_count, FlightIndexState, IndexState};
use crate::frame::is_recoverable_state;
use crate::hold_tracker::Edge;
use crate::link::LinkStatus;
use crate::nogo::nogo_of;
use crate::packet::{Command, State, Summary, Telemetry, MAX_STORED_FLIGHTS};
use crate::screen::{
    advance, back, current, cycle_selected, selected, to_flights, ScreenState, FLIGHT, FLIGHTS,
    SUMMARY,
};
use crate::summary_request::SummaryRequest;

verus! {

/// Button numbers.
pub const KEY_ARM: usize = 0;
pub const KEY_CHIRP: usize = 1;
pub const KEY_MENU: usize = 2;

/// What a button event does on the display side, given the screen it
/// arrived on.
#[derive(Debug, Clone, Copy, PartialEq, Eq, Structural)]
pub enum LocalRoute {
    /// MENU on SUMMARY: back to FLIGHTS, and forget the last request.
    MenuToFlights,
    /// MENU elsewhere: next screen.
    MenuAdvance,
    /// ARM button tap on FLIGHTS: move the list cursor.
    CycleCursor,
    /// ARM or CHIRP on SUMMARY: inert.
    Swallow,
    /// ARM button off FLIGHT: previous screen.
    Back,
    /// ARM button tap on FLIGHT: nothing (only a hold sends).
    Ignore,
    /// Everything else needs the radio.
    Forward,
}

/// The local route of `(key, edge)` on screen `screen`.
pub open spec fn local_route(key: usize, edge: Edge, screen: u8) -> LocalRoute {
    if key == KEY_MENU && edge == Edge::Tap && screen == SUMMARY {
        LocalRoute::MenuToFlights
    } else if key == KEY_MENU && edge == Edge::Tap {
        LocalRoute::MenuAdvance
    } else if key == KEY_ARM && edge == Edge::Tap && screen == FLIGHTS {
        LocalRoute::CycleCursor
    } else if (key == KEY_ARM || key == KEY_CHIRP) && screen == SUMMARY {
        LocalRoute::Swallow
    } else if key == KEY_ARM && screen != FLIGHT {
        LocalRoute::Back
    } else if key == KEY_ARM && edge == Edge::Tap {
        LocalRoute::Ignore
    } else {
        LocalRoute::Forward
    }
}

/// An ARM-button event reaches the radio only as a hold on FLIGHT, the
/// one place where it means "send": anywhere else either ARM-button
/// gesture is local navigation. Off FLIGHT it goes back a screen, except
/// that a tap on FLIGHTS moves the list cursor and SUMMARY swallows it.
pub proof fn lemma_arm_button_forwarded_only_on_flight(edge: Edge, screen: u8)
    ensures
        local_route(0, edge, screen) == LocalRoute::Forward ==> screen == 0 && edge == Edge::Hold,
        screen == 0 && edge == Edge::Hold ==> local_route(0, edge, screen) == LocalRoute::Forward,
        (screen == 1 || screen == 2) ==> local_route(0, edge, screen) == LocalRoute::Back,
        screen == 3 && edge == Edge::Hold ==> local_route(0, edge, screen) == LocalRoute::Back,
        screen == 3 && edge == Edge::Tap ==> local_route(0, edge, screen) == LocalRoute::CycleCursor,
        screen == 4 ==> local_route(0, edge, screen) == LocalRoute::Swallow,
{
}

/// Apply the local meaning of a button event to the screen and the
/// summary request; `true` when the event must be forwarded to the radio
/// side. `flight_count` is the cached index's flight count.
pub fn route_button(
    key: usize,
    edge: Edge,
    screen: &mut ScreenState,
    request: &mut SummaryRequest,
    flight_count: u8,
) -> (forward: bool)
    requires
        old(screen).wf(),
    ensures
        final(screen).wf(),
        forward == (local_route(key, edge, old(screen).spec_current()) == LocalRoute::Forward),
        match local_route(key, edge, old(screen).spec_current()) {
            LocalRoute::MenuToFlights => final(screen).spec_current() == FLIGHTS
                && final(screen).spec_selected() == old(screen).spec_selected()
                && *final(request) == SummaryRequest::Idle,
            LocalRoute::MenuAdvance => final(screen).spec_current() == (old(screen).spec_current() + 1)
                % 4 && final(screen).spec_selected() == old(screen).spec_selected() && *final(request)
                == *old(request),
            LocalRoute::CycleCursor => final(screen).spec_current() == old(screen).spec_current()
                && final(screen).spec_selected() == (if flight_count == 0 {
                0
            } else {
                (old(screen).spec_selected() + 1) % (flight_count as int)
            }) && *final(request) == *old(request),
            LocalRoute::Back => final(screen).spec_current() == crate::screen::back_target(
                old(screen).spec_current(),
            ) && final(screen).spec_selected() == old(screen).spec_selected() && *final(request)
                == *old(request),
            _ => *final(screen) == *old(screen) && *final(request) == *old(request),
        },
{
    let on = current(screen);
    if key == KEY_MENU && edge == Edge::Tap && on == SUMMARY {
        to_flights(screen);
        request.reset();
        false
    } else if key == KEY_MENU && edge == Edge::Tap {
        advance(screen);
        false
    } else if key == KEY_ARM && edge == Edge::Tap && on == FLIGHTS {
        cycle_selected(screen, flight_count);
        false
    } else if (key == KEY_ARM || key == KEY_CHIRP) && on == SUMMARY {
        false
    } else if key == KEY_ARM && on != FLIGHT {
        back(screen);
        false
    } else if key == KEY_ARM && edge == Edge::Tap {
        false
    } else {
        true
    }
}

/// What the radio side does with a forwarded button event.
#[derive(Debug, Clone, Copy, PartialEq, Eq)]
pub enum RadioAction {
    Nothing,
    /// Drop the cached flight index and summaries.
    InvalidateFlights,
    /// Show this already cached summary on SUMMARY, with no request.
    ShowCached(Summary),
    /// Send `cmd` asking for the summary of flight `index`, then wait for
    /// it on SUMMARY.
    RequestSummary { index: u8, cmd: u8 },
    /// Send `cmd`; `recover` marks a DISARM meant as RECOVER.
    Send { cmd: u8, recover: bool },
}

/// The command the ARM/DISARM hold sends, given the rocket's last known
/// state and whether a NO GO reason applies: DISARM when ARMED, RECOVER
/// (DISARM) past ARMED, no command under NO GO, otherwise ARM.
pub open spec fn hold_command(latest_state: Option<u8>, nogo: bool) -> Option<(u8, bool)> {
    if latest_state == Some(State::ARMED) {
        Some((Command::DISARM, false))
    } else if latest_state matches Some(s) && is_recoverable_state(s) {
        Some((Command::DISARM, true))
    } else if nogo {
        None
    } else {
        Some((Command::ARM, false))
    }
}

/// The radio-side action for a forwarded `(key, edge)`.
pub open spec fn radio_action_of(
    key: usize,
    edge: Edge,
    screen: u8,
    selected: u8,
    index_state: IndexState,
    cached: Option<Summary>,
    latest_state: Option<u8>,
    nogo: bool,
) -> RadioAction {
    if key == KEY_CHIRP && edge == Edge::Tap && screen == FLIGHTS && index_state == IndexState::Empty {
        RadioAction::InvalidateFlights
    } else if key == KEY_CHIRP && edge == Edge::Tap && screen == FLIGHTS {
        match cached {
            Some(s) => RadioAction::ShowCached(s),
            None => RadioAction::RequestSummary {
                index: selected,
                cmd: (Command::GET_SUMMARY_BASE + selected) as u8,
            },
        }
    } else if key == KEY_CHIRP && edge == Edge::Tap && screen == crate::screen::DIAG {
        RadioAction::InvalidateFlights
    } else if key == KEY_ARM && edge == Edge::Hold {
        match hold_command(latest_state, nogo) {
            Some((cmd, recover)) => RadioAction::Send { cmd, recover },
            None => RadioAction::Nothing,
        }
    } else if key == KEY_CHIRP && edge == Edge::Tap {
        RadioAction::Send { cmd: Command::CHIRP, recover: false }
    } else {
        RadioAction::Nothing
    }
}

/// Decide what a forwarded button event does on the radio side, from the
/// screen, the flight cache, the latest telemetry frame and whether its
/// battery reads low.
pub fn radio_action(
    key: usize,
    edge: Edge,
    screen: &ScreenState,
    index: &FlightIndexState,
    latest: Option<&Telemetry>,
    low_battery: bool,
) -> (r: RadioAction)
    requires
        index.wf(),
        screen.wf(),
        key == KEY_CHIRP && edge == Edge::Tap && screen.spec_current() == FLIGHTS
            ==> screen.spec_selected() + Command::GET_SUMMARY_BASE <= 255,
    ensures
        r == radio_action_of(
            key,
            edge,
            screen.spec_current(),
            screen.spec_selected(),
            index.spec_state(),
            if screen.spec_selected() < MAX_STORED_FLIGHTS {
                index.spec_summaries()[screen.spec_selected() as int]
            } else {
                None
            },
            match latest {
                Some(t) => Some(t.state),
                None => None,
            },
            latest matches Some(t) && nogo_of(low_battery, t.sensors) is Some,
        ),
{
    let on = current(screen);
    let sel = selected(screen);
    if key == KEY_CHIRP && edge == Edge::Tap && on == FLIGHTS && index.state() == IndexState::Empty {
        return RadioAction::InvalidateFlights;
    }
    if key == KEY_CHIRP && edge == Edge::Tap && on == FLIGHTS {
        return match index.cached_summary(sel) {
            Some(s) => RadioAction::ShowCached(s),
            None => RadioAction::RequestSummary { index: sel, cmd: Command::GET_SUMMARY_BASE + sel },
        };
    }
    if key == KEY_CHIRP && edge == Edge::Tap && on == crate::screen::DIAG {
        return RadioAction::InvalidateFlights;
    }
    if key == KEY_ARM && edge == Edge::Hold {
        let latest_state = match latest {
            Some(t) => Some(t.state),
            None => None,
        };
        let nogo = match latest {
            Some(t) => crate::nogo::nogo_decision(low_battery, t.sensors).is_some(),
            None => false,
        };
        return if latest_state == Some(State::ARMED) {
            RadioAction::Send { cmd: Command::DISARM, recover: false }
        } else if crate::frame::recoverable(latest) {
            RadioAction::Send { cmd: Command::DISARM, recover: true }
        } else if nogo {
            RadioAction::Nothing
        } else {
            RadioAction::Send { cmd: Command::ARM, recover: false }
        };
    }
    if key == KEY_CHIRP && edge == Edge::Tap {
        return RadioAction::Send { cmd: Command::CHIRP, recover: false };
    }
    RadioAction::Nothing
}

/// Whether the last known state is unknown, BOOT, IDLE or out of range:
/// the rocket is neither armed nor past launch.
pub open spec fn not_launched(latest_state: Option<u8>) -> bool {
    match latest_state {
        None => true,
        Some(x) => x <= 1 || x > 7,
    }
}

/// What an ARM-button hold asks for, by the rocket's last known state:
/// RECOVER (DISARM on the wire, marked as recover) for every state past
/// ARMED, BOOST through LANDED, whether or not a NO GO reason applies, so
/// a flight stuck anywhere past launch can be recovered; plain DISARM when
/// ARMED; and ARM only when the state is unknown, BOOT, IDLE or out of
/// range, and never under NO GO.
pub proof fn lemma_hold_command_by_state(latest_state: Option<u8>, nogo: bool)
    ensures
        (latest_state matches Some(x) && 3 <= x <= 7) ==> hold_command(latest_state, nogo) == Some(
            (0x03u8, true),
        ),
        latest_state == Some(2u8) ==> hold_command(latest_state, nogo) == Some((0x03u8, false)),
        (hold_command(latest_state, nogo) matches Some((c, _)) && c == 0x02u8) ==> !nogo
            && not_launched(latest_state),
        hold_command(latest_state, nogo) is None ==> nogo && not_launched(latest_state),
{
}

/// On the radio side an ARM-button hold sends RECOVER whenever the rocket
/// is past ARMED (BOOST through LANDED), on any screen and whatever the
/// cache or NO GO flag.
pub proof fn lemma_hold_recovers_past_armed(
    screen: u8,
    selected: u8,
    index_state: IndexState,
    cached: Option<Summary>,
    state: u8,
    nogo: bool,
)
    requires
        3 <= state <= 7,
    ensures
        radio_action_of(KEY_ARM, Edge::Hold, screen, selected, index_state, cached, Some(state), nogo)
            == (RadioAction::Send { cmd: 0x03u8, recover: true }),
{
    lemma_hold_command_by_state(Some(state), nogo);
}

/// ARM is never sent while a NO GO reason applies, whatever the button,
/// screen or cache.
pub proof fn lemma_no_arm_under_nogo(
    key: usize,
    edge: Edge,
    screen: u8,
    selected: u8,
    index_state: IndexState,
    cached: Option<Summary>,
    latest_state: Option<u8>,
)
    ensures
        !(radio_action_of(key, edge, screen, selected, index_state, cached, latest_state, true) matches RadioAction::Send { cmd, .. } && cmd == Command::ARM),
{
}

/// Whether the flight index should be fetched now: FLIGHTS is showing,
/// nothing is cached or pending, and the link is up.
pub open spec fn fetch_index_due(state: IndexState, screen: u8, status: LinkStatus) -> bool {
    state == IndexState::Idle && screen == FLIGHTS && (status == LinkStatus::Live || status
        == LinkStatus::Stale)
}

/// See [`fetch_index_due`].
pub fn should_fetch_index(index: &FlightIndexState, screen: &ScreenState, status: LinkStatus) -> (r: bool)
    ensures
        r == fetch_index_due(index.spec_state(), screen.spec_current(), status),
{
    index.state() == IndexState::Idle && current(screen) == FLIGHTS && (status == LinkStatus::Live
        || status == LinkStatus::Stale)
}

/// The background prefetch to send now, as `(index, command)`: none
/// while a manual summary request is pending (one request in flight at
/// a time) or the link is down; otherwise the cache's next index.
pub fn prefetch_request(index: &FlightIndexState, request: &SummaryRequest, status: LinkStatus) -> (r: Option<(u8, u8)>)
    requires
        index.wf(),
    ensures
        (*request is Pending || !(status == LinkStatus::Live || status == LinkStatus::Stale)) ==> r is None,
        r matches Some((i, cmd)) ==> {
            &&& cmd == Command::GET_SUMMARY_BASE + i
            &&& index.spec_prefetch() is Idle
            &&& i < index_count(index.spec_state())
            &&& !crate::flight_index::resolved(index.spec_summaries(), index.spec_abandoned(), i as int)
            &&& forall|j: int| 0 <= j < i ==> crate::flight_index::resolved(index.spec_summaries(), index.spec_abandoned(), j)
        },
        (!(*request is Pending) && (status == LinkStatus::Live || status == LinkStatus::Stale) && index.spec_prefetch() is Idle
            && exists|j: int| 0 <= j < index_count(index.spec_state()) && !crate::flight_index::resolved(index.spec_summaries(), index.spec_abandoned(), j)) ==> r is Some,
{
    let manual_pending = match request {
        SummaryRequest::Pending { .. } => true,
        _ => false,
    };
    if manual_pending || !(status == LinkStatus::Live || status == LinkStatus::Stale) {
        return None;
    }
    match index.next_to_prefetch() {
        Some(i) => Some((i, Command::GET_SUMMARY_BASE + i)),
        None => None,
    }
}

/// The body drawn under the header.
#[derive(Debug, Clone, Copy, PartialEq, Eq, Structural)]
pub enum ScreenBody {
    /// Nothing current from the rocket.
    Missing,
    /// Current, but no frame to draw from.
    Blank,
    Flight,
    Recovery,
    Diag,
    Flights,
    Summary,
}

/// Which body to draw: the missing-rocket screen whenever telemetry is
/// missing, whatever screen is selected; otherwise the selected screen
/// (FLIGHT for anything unknown), when there is a frame to draw from.
pub fn screen_body(age_ms: Option<u32>, has_telemetry: bool, screen: &ScreenState) -> (r: ScreenBody)
    ensures
        r == (if (match age_ms {
            None => true,
            Some(age) => age > crate::link::TELEMETRY_MISSING_MS,
        }) {
            ScreenBody::Missing
        } else if !has_telemetry {
            ScreenBody::Blank
        } else if screen.spec_current() == crate::screen::RECOVERY {
            ScreenBody::Recovery
        } else if screen.spec_current() == crate::screen::DIAG {
            ScreenBody::Diag
        } else if screen.spec_current() == FLIGHTS {
            ScreenBody::Flights
        } else if screen.spec_current() == SUMMARY {
            ScreenBody::Summary
        } else {
            ScreenBody::Flight
        }),
{
    if crate::link::telemetry_missing(age_ms) {
        ScreenBody::Missing
    } else if !has_telemetry {
        ScreenBody::Blank
    } else {
        let on = current(screen);
        if on == crate::screen::RECOVERY {
            ScreenBody::Recovery
        } else if on == crate::screen::DIAG {
            ScreenBody::Diag
        } else if on == FLIGHTS {
            ScreenBody::Flights
        } else if on == SUMMARY {
            ScreenBody::Summary
        } else {
            ScreenBody::Flight
        }
    }
}

/// The footer: what each button does right now.
pub struct Footer {
    /// `MENU>` and the screen MENU leads to.
    pub menu: String,
    /// The left (ARM/DISARM) button.
    pub left: String,
    /// The right (CHIRP) button.
    pub right: &'static str,
    /// Where the right label starts, in pixels.
    pub right_x: i32,
}

/// The left button's label on screen `screen`: on FLIGHT the command a
/// hold sends (nothing when a hold would send nothing); on FLIGHTS the
/// cursor; nothing on SUMMARY; elsewhere a tap goes back, to `prev`.
pub open spec fn left_label(screen: u8, latest_state: Option<u8>, nogo: bool, prev: Seq<char>) -> Seq<char> {
    if screen == FLIGHT {
        match hold_command(latest_state, nogo) {
            Some((cmd, recover)) => if cmd == Command::ARM {
                "HOLD:ARM"@
            } else if recover {
                "HOLD:RECOVER"@
            } else {
                "HOLD:DISARM"@
            },
            None => Seq::empty(),
        }
    } else if screen == FLIGHTS {
        "TAP:CYCLE"@
    } else if screen == SUMMARY {
        Seq::empty()
    } else {
        "TAP:BACK>"@ + prev
    }
}

/// The right button's label on screen `screen`.
pub open spec fn right_label(screen: u8, index_state: IndexState) -> &'static str {
    if screen == FLIGHT {
        "TAP:CHIRP"
    } else if screen == FLIGHTS {
        if index_state matches IndexState::Ready { count } && count > 0 {
            "TAP:SELECT"
        } else if index_state == IndexState::Empty {
            "TAP:REFRESH"
        } else {
            ""
        }
    } else if screen == SUMMARY {
        ""
    } else if screen == crate::screen::DIAG {
        "TAP:CLR CACHE"
    } else {
        "TAP:CHIRP"
    }
}

/// The footer for the current screen, the latest frame (with whether its
/// battery reads low) and the flight index.
pub fn footer(screen: &ScreenState, latest: Option<&Telemetry>, low_battery: bool, index_state: IndexState) -> (r: Footer)
    requires
        screen.wf(),
    ensures
        r.menu@ == "MENU>"@ + crate::screen::screen_name(crate::screen::menu_target(screen.spec_current()))@,
        r.left@ == left_label(
            screen.spec_current(),
            match latest {
                Some(t) => Some(t.state),
                None => None,
            },
            latest matches Some(t) && nogo_of(low_battery, t.sensors) is Some,
            crate::screen::screen_name(crate::screen::back_target(screen.spec_current()))@,
        ),
        r.right == right_label(screen.spec_current(), index_state),
        r.right_x == (if screen.spec_current() == crate::screen::DIAG {
            320i32
        } else {
            330i32
        }),
{
    let on = current(screen);
    let mut menu = String::from_str("MENU>");
    menu.append(crate::screen::next_name(screen));
    let mut left = String::new();
    let mut right: &'static str = "";
    let mut right_x: i32 = 330;
    let ghost latest_state = match latest {
        Some(t) => Some(t.state),
        None => None,
    };
    if on == FLIGHT {
        let nogo = match latest {
            Some(t) => crate::nogo::nogo_decision(low_battery, t.sensors).is_some(),
            None => false,
        };
        if crate::frame::armed(latest) {
            left = String::from_str("HOLD:DISARM");
        } else if crate::frame::recoverable(latest) {
            left = String::from_str("HOLD:RECOVER");
        } else if !nogo {
            left = String::from_str("HOLD:ARM");
        }
        right = "TAP:CHIRP";
    } else if on == FLIGHTS {
        left = String::from_str("TAP:CYCLE");
        right = match index_state {
            IndexState::Ready { count } => if count > 0 {
                "TAP:SELECT"
            } else {
                ""
            },
            IndexState::Empty => "TAP:REFRESH",
            _ => "",
        };
    } else if on == SUMMARY {
    } else {
        left = String::from_str("TAP:BACK>");
        left.append(crate::screen::prev_name(screen));
        if on == crate::screen::DIAG {
            right = "TAP:CLR CACHE";
            right_x = right_x - 10;
        } else {
            right = "TAP:CHIRP";
        }
    }
    proof {
        if on == SUMMARY || (on == FLIGHT && left@.len() == 0) {
            assert(left@ =~= Seq::<char>::empty());
        }
    }
    Footer { menu, left, right, right_x }
}

/// The FLIGHT footer never offers a hold that the radio side would not
/// act on, and always names the command a hold sends: its left label is
/// `HOLD:ARM` exactly when a hold sends ARM, and blank exactly when a
/// hold sends nothing (a NO GO reason applies and the rocket is not past
/// IDLE).
pub proof fn lemma_footer_matches_hold(latest_state: Option<u8>, nogo: bool, prev: Seq<char>)
    ensures
        (left_label(FLIGHT, latest_state, nogo, prev) == "HOLD:ARM"@) <==> (hold_command(latest_state, nogo) == Some((Command::ARM, false))),
        (left_label(FLIGHT, latest_state, nogo, prev).len() == 0) <==> (hold_command(latest_state, nogo) is None),
{
    reveal_strlit("HOLD:ARM");
    reveal_strlit("HOLD:RECOVER");
    reveal_strlit("HOLD:DISARM");
    if hold_command(latest_state, nogo) is Some {
        let (cmd, recover) = hold_command(latest_state, nogo).unwrap();
        if cmd != Command::ARM {
            if recover {
                assert("HOLD:RECOVER"@ != "HOLD:ARM"@) by {
                    assert("HOLD:RECOVER"@.len() != "HOLD:ARM"@.len());
                }
            } else {
                assert("HOLD:DISARM"@ != "HOLD:ARM"@) by {
                    assert("HOLD:DISARM"@[5] != "HOLD:ARM"@[5]);
                }
            }
        }
    } else {
        assert(Seq::<char>::empty() != "HOLD:ARM"@) by {
            assert("HOLD:ARM"@.len() == 8);
        }
    }
}

} // verus!
