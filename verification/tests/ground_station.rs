use launchcast::buttons::{edge_name, ButtonSampler};
use launchcast::cmdlog::{CmdLogState, PollOutcome};
use launchcast::control::{
    footer, prefetch_request, radio_action, route_button, screen_body, should_fetch_index, RadioAction,
    ScreenBody, KEY_ARM, KEY_CHIRP, KEY_MENU,
};
use launchcast::flight_index::{FlightIndexState, IndexState};
use launchcast::flight_screen::{altitude_shown, gps_lock_label, online, rocket_art, RocketArt};
use launchcast::frame::{armed, nogo, payload_charging, recoverable};
use launchcast::hold_tracker::Edge;
use launchcast::link::LinkStatus;
use launchcast::link_state::{LatchedFix, LinkState};
use launchcast::nogo::NogoReason;
use launchcast::packet::{pack_telemetry, unpack_telemetry, Command, Sensor, State, Summary, Telemetry, TelemetryInput};
use launchcast::radio_frame::{count_rx, decode_rx, pack_command_radio, receive_frame, RxCounts, RxOutcome};
use launchcast::screen::{
    advance, back, current, current_name, cycle_selected, name, next_name, prev_name, selected, to_flights,
    to_summary, ScreenState, DIAG, FLIGHT, FLIGHTS, RECOVERY, SUMMARY,
};
use launchcast::summary_request::SummaryRequest;
use launchcast::window::{SampleWindow, WINDOW_SAMPLES};

fn telemetry(state: u8, sensors: u8) -> Telemetry {
    let input = TelemetryInput {
        counter: 1,
        uptime_ms: 10,
        state,
        lat_bits: 41.25f32.to_bits(),
        lon_bits: (-95.93f32).to_bits(),
        alt_baro_m: 0,
        speed_cms: 0,
        temp_dc: 0,
        accel_mg: [0; 3],
        gyro_ddps: [0; 3],
        batt: 100,
        has_fix: true,
        satellites: 8,
        flight_count: 0,
        sensors,
        fw_version: 1,
    };
    unpack_telemetry(&pack_telemetry(&input)).unwrap()
}

fn summary(index: u8) -> Summary {
    Summary {
        flight_index: index,
        wait_ms: 1,
        boost_ms: 2,
        coast_ms: 3,
        descent_ms: 4,
        arm_lat_bits: 0,
        arm_lon_bits: 0,
        landed_lat_bits: 0,
        landed_lon_bits: 0,
        max_speed_mps_bits: 0,
        max_alt_m_bits: 0,
        temp_at_max_alt_c_bits: 0,
        pressure_at_max_alt_hpa_bits: 0,
        max_accel_g_bits: 0,
        max_gyro_dps_bits: 0,
        record_count: 5,
        arm_epoch_s: 6,
    }
}

fn ready_index(count: usize) -> FlightIndexState {
    let mut idx = FlightIndexState::new();
    idx.start_fetch(0);
    let stamps: Vec<u32> = (0..count as u32).collect();
    idx.record_response(&stamps);
    idx
}

// --- Screens --------------------------------------------------------------------

#[test]
fn menu_cycles_four_screens_and_back_undoes_it() {
    let mut s = ScreenState::new();
    assert_eq!(current_name(&s), "FLIGHT");
    assert_eq!(next_name(&s), "RECOVERY");
    assert_eq!(prev_name(&s), "FLIGHTS");
    for want in [RECOVERY, DIAG, FLIGHTS, FLIGHT] {
        advance(&mut s);
        assert_eq!(current(&s), want);
    }
    advance(&mut s);
    back(&mut s);
    assert_eq!(current(&s), FLIGHT);
}

#[test]
fn summary_is_outside_the_rotation() {
    let mut s = ScreenState::new();
    to_summary(&mut s);
    assert_eq!(current_name(&s), "SUMMARY");
    assert_eq!(next_name(&s), "FLIGHTS");
    assert_eq!(name(SUMMARY), "SUMMARY");
    to_flights(&mut s);
    assert_eq!(current(&s), FLIGHTS);
}

#[test]
fn cursor_wraps_at_the_flight_count() {
    let mut s = ScreenState::new();
    cycle_selected(&mut s, 3);
    cycle_selected(&mut s, 3);
    assert_eq!(selected(&s), 2);
    cycle_selected(&mut s, 3);
    assert_eq!(selected(&s), 0);
    cycle_selected(&mut s, 2);
    cycle_selected(&mut s, 0);
    assert_eq!(selected(&s), 0);
}

// --- Button routing -------------------------------------------------------------

#[test]
fn menu_on_summary_returns_to_flights_and_resets_the_request() {
    let mut s = ScreenState::new();
    to_summary(&mut s);
    let mut req = SummaryRequest::Failed { index: 2 };
    assert!(!route_button(KEY_MENU, Edge::Tap, &mut s, &mut req, 3));
    assert_eq!(current(&s), FLIGHTS);
    assert_eq!(req, SummaryRequest::Idle);
}

#[test]
fn arm_button_meanings_per_screen() {
    let mut req = SummaryRequest::Idle;
    let mut s = ScreenState::new();
    // FLIGHT: a tap does nothing, a hold is forwarded.
    assert!(!route_button(KEY_ARM, Edge::Tap, &mut s, &mut req, 0));
    assert!(route_button(KEY_ARM, Edge::Hold, &mut s, &mut req, 0));
    assert_eq!(current(&s), FLIGHT);
    // RECOVERY: either gesture goes back.
    advance(&mut s);
    assert!(!route_button(KEY_ARM, Edge::Tap, &mut s, &mut req, 0));
    assert_eq!(current(&s), FLIGHT);
    // FLIGHTS: a tap moves the cursor.
    to_flights(&mut s);
    assert!(!route_button(KEY_ARM, Edge::Tap, &mut s, &mut req, 4));
    assert_eq!(selected(&s), 1);
    // SUMMARY: inert.
    to_summary(&mut s);
    assert!(!route_button(KEY_ARM, Edge::Hold, &mut s, &mut req, 4));
    assert!(!route_button(KEY_CHIRP, Edge::Tap, &mut s, &mut req, 4));
    assert_eq!(current(&s), SUMMARY);
}

#[test]
fn chirp_is_forwarded_off_summary() {
    let mut req = SummaryRequest::Idle;
    let mut s = ScreenState::new();
    assert!(route_button(KEY_CHIRP, Edge::Tap, &mut s, &mut req, 0));
    assert!(route_button(KEY_MENU, Edge::Hold, &mut s, &mut req, 0));
}

// --- Radio-side decisions --------------------------------------------------------

#[test]
fn hold_on_flight_picks_arm_disarm_or_recover() {
    let s = ScreenState::new();
    let idx = FlightIndexState::new();
    let idle = telemetry(State::IDLE, Sensor::ALL);
    let arm = radio_action(KEY_ARM, Edge::Hold, &s, &idx, Some(&idle), false);
    assert_eq!(arm, RadioAction::Send { cmd: Command::ARM, recover: false });
    let armed_tel = telemetry(State::ARMED, Sensor::ALL);
    let disarm = radio_action(KEY_ARM, Edge::Hold, &s, &idx, Some(&armed_tel), true);
    assert_eq!(disarm, RadioAction::Send { cmd: Command::DISARM, recover: false });
    let landed = telemetry(State::LANDED, Sensor::ALL | Sensor::CHG);
    let recover = radio_action(KEY_ARM, Edge::Hold, &s, &idx, Some(&landed), true);
    assert_eq!(recover, RadioAction::Send { cmd: Command::DISARM, recover: true });
}

#[test]
fn arm_is_refused_under_nogo() {
    let s = ScreenState::new();
    let idx = FlightIndexState::new();
    let idle = telemetry(State::IDLE, Sensor::ALL);
    assert_eq!(radio_action(KEY_ARM, Edge::Hold, &s, &idx, Some(&idle), true), RadioAction::Nothing);
    let charging = telemetry(State::IDLE, Sensor::ALL | Sensor::CHG);
    assert_eq!(radio_action(KEY_ARM, Edge::Hold, &s, &idx, Some(&charging), false), RadioAction::Nothing);
    // No telemetry at all: no NO GO reason can apply.
    assert_eq!(
        radio_action(KEY_ARM, Edge::Hold, &s, &idx, None, true),
        RadioAction::Send { cmd: Command::ARM, recover: false }
    );
}

#[test]
fn chirp_on_flights_selects_refreshes_or_shows_cached() {
    let mut s = ScreenState::new();
    to_flights(&mut s);
    let empty = ready_index(0);
    assert_eq!(radio_action(KEY_CHIRP, Edge::Tap, &s, &empty, None, false), RadioAction::InvalidateFlights);
    let mut idx = ready_index(3);
    cycle_selected(&mut s, 3);
    assert_eq!(
        radio_action(KEY_CHIRP, Edge::Tap, &s, &idx, None, false),
        RadioAction::RequestSummary { index: 1, cmd: Command::GET_SUMMARY_BASE + 1 }
    );
    idx.record_summary(summary(1));
    assert_eq!(radio_action(KEY_CHIRP, Edge::Tap, &s, &idx, None, false), RadioAction::ShowCached(summary(1)));
    advance(&mut s);
    advance(&mut s);
    advance(&mut s);
    assert_eq!(current(&s), DIAG);
    assert_eq!(radio_action(KEY_CHIRP, Edge::Tap, &s, &idx, None, false), RadioAction::InvalidateFlights);
    back(&mut s);
    assert_eq!(
        radio_action(KEY_CHIRP, Edge::Tap, &s, &idx, None, false),
        RadioAction::Send { cmd: Command::CHIRP, recover: false }
    );
}

#[test]
fn index_is_fetched_only_on_flights_with_a_live_link() {
    let mut s = ScreenState::new();
    let idx = FlightIndexState::new();
    assert!(!should_fetch_index(&idx, &s, LinkStatus::Live));
    to_flights(&mut s);
    assert!(should_fetch_index(&idx, &s, LinkStatus::Live));
    assert!(should_fetch_index(&idx, &s, LinkStatus::Stale));
    assert!(!should_fetch_index(&idx, &s, LinkStatus::Lost));
    assert!(!should_fetch_index(&ready_index(2), &s, LinkStatus::Live));
}

#[test]
fn prefetch_walks_the_index_one_request_at_a_time() {
    let mut idx = ready_index(3);
    let idle = SummaryRequest::Idle;
    assert_eq!(prefetch_request(&idx, &idle, LinkStatus::Live), Some((0, Command::GET_SUMMARY_BASE)));
    let pending = SummaryRequest::Pending { index: 2, packets_at_send: 0 };
    assert_eq!(prefetch_request(&idx, &pending, LinkStatus::Live), None);
    assert_eq!(prefetch_request(&idx, &idle, LinkStatus::Lost), None);
    idx.start_prefetch(0, 10);
    assert_eq!(prefetch_request(&idx, &idle, LinkStatus::Live), None);
    idx.record_summary(summary(0));
    assert_eq!(prefetch_request(&idx, &idle, LinkStatus::Live), Some((1, Command::GET_SUMMARY_BASE + 1)));
}

// --- Flight index cache -----------------------------------------------------------

#[test]
fn late_index_response_is_ignored() {
    let mut idx = FlightIndexState::new();
    idx.record_response(&[1, 2, 3]);
    assert_eq!(idx.state(), IndexState::Idle);
    assert_eq!(idx.count(), 0);
}

#[test]
fn index_response_caps_and_clears_caches() {
    let mut idx = ready_index(2);
    idx.record_summary(summary(0));
    assert_eq!(idx.cached_summary(0), Some(summary(0)));
    idx.start_fetch(5);
    let stamps: Vec<u32> = (0..40).collect();
    idx.record_response(&stamps);
    assert_eq!(idx.state(), IndexState::Ready { count: 32 });
    assert_eq!(idx.cached_summary(0), None);
    idx.start_fetch(5);
    idx.record_response(&[]);
    assert_eq!(idx.state(), IndexState::Empty);
}

#[test]
fn pending_fetch_times_out() {
    let mut idx = FlightIndexState::new();
    idx.start_fetch(10);
    idx.poll_timeout(12, LinkStatus::Live);
    assert_eq!(idx.state(), IndexState::Pending { packets_at_send: 10 });
    idx.poll_timeout(13, LinkStatus::Live);
    assert_eq!(idx.state(), IndexState::Failed);
    let mut idx = FlightIndexState::new();
    idx.start_fetch(10);
    idx.poll_timeout(10, LinkStatus::Lost);
    assert_eq!(idx.state(), IndexState::Failed);
}

#[test]
fn timed_out_prefetch_is_abandoned_and_progress_finishes() {
    let mut idx = ready_index(2);
    assert_eq!(idx.prefetch_progress(), Some((0, 2)));
    idx.start_prefetch(0, 100);
    idx.poll_timeout(103, LinkStatus::Live);
    assert_eq!(idx.next_to_prefetch(), Some(1));
    assert_eq!(idx.prefetch_progress(), Some((0, 2)));
    idx.start_prefetch(1, 200);
    idx.record_summary(summary(1));
    assert_eq!(idx.next_to_prefetch(), None);
    assert_eq!(idx.prefetch_progress(), None);
    assert_eq!(idx.cached_summary(1), Some(summary(1)));
    idx.invalidate();
    assert_eq!(idx.state(), IndexState::Idle);
    assert_eq!(idx.cached_summary(1), None);
    assert_eq!(idx.prefetch_progress(), None);
}

#[test]
fn summary_slots_past_the_cap_are_ignored() {
    let mut idx = ready_index(1);
    idx.record_summary(summary(40));
    assert_eq!(idx.cached_summary(40), None);
    assert_eq!(idx.prefetch_progress(), Some((0, 1)));
}

// --- Summary request ---------------------------------------------------------------

#[test]
fn summary_request_lifecycle() {
    let mut r = SummaryRequest::Idle;
    r.record_response(summary(1));
    assert_eq!(r, SummaryRequest::Idle);
    r.start(1, 50);
    r.record_response(summary(2));
    assert_eq!(r, SummaryRequest::Pending { index: 1, packets_at_send: 50 });
    r.record_response(summary(1));
    assert_eq!(r, SummaryRequest::Ready(summary(1)));
    r.start(3, 50);
    r.poll_timeout(52, LinkStatus::Stale);
    assert_eq!(r, SummaryRequest::Pending { index: 3, packets_at_send: 50 });
    r.poll_timeout(53, LinkStatus::Stale);
    assert_eq!(r, SummaryRequest::Failed { index: 3 });
    r.show_cached(summary(4));
    assert_eq!(r, SummaryRequest::Ready(summary(4)));
    r.reset();
    assert_eq!(r, SummaryRequest::Idle);
}

// --- Command log -------------------------------------------------------------------

#[test]
fn arm_is_confirmed_by_telemetry() {
    let mut log = CmdLogState::new();
    log.record_send(Command::ARM, 100, false);
    assert_eq!(log.snapshot().tx_status, "SENT ARM...");
    assert_eq!(log.poll(Some(State::IDLE), 101, LinkStatus::Live), None);
    assert_eq!(log.snapshot().tx_status, "SENT ARM...");
    assert_eq!(log.poll(Some(State::ARMED), 102, LinkStatus::Live), Some(PollOutcome::Armed));
    let snap = log.snapshot();
    assert_eq!(snap.tx_status, "ARMED OK");
    assert_eq!(snap.lines, vec!["", "SENT ARM...", "ARMED OK"]);
    assert_eq!(log.poll(Some(State::IDLE), 200, LinkStatus::Lost), None);
    assert_eq!(log.snapshot().tx_status, "ARMED OK");
}

#[test]
fn disarm_fails_after_three_frames_or_a_lost_link() {
    let mut log = CmdLogState::new();
    log.record_send(Command::DISARM, 10, false);
    assert_eq!(log.poll(Some(State::ARMED), 13, LinkStatus::Live), Some(PollOutcome::Failed));
    assert_eq!(log.snapshot().tx_status, "CMD FAILED -- retry");
    log.record_send(Command::DISARM, 20, false);
    assert_eq!(log.poll(None, 20, LinkStatus::Lost), Some(PollOutcome::LinkLost));
    assert_eq!(log.snapshot().tx_status, "CMD FAILED -- link lost");
    log.record_send(Command::DISARM, 30, false);
    assert_eq!(log.poll(Some(State::IDLE), 30, LinkStatus::Live), Some(PollOutcome::Disarmed));
    let snap = log.snapshot();
    assert_eq!(snap.tx_status, "DISARMED OK");
    assert_eq!(snap.lines, vec!["CMD FAILED -- link lost", "SENT DISARM...", "DISARMED OK"]);
}

#[test]
fn recover_is_logged_by_name_and_clears_the_flight_caches() {
    let mut log = CmdLogState::new();
    log.record_send(Command::DISARM, 5, true);
    assert_eq!(log.snapshot().tx_status, "SENT RECOVER...");
    let outcome = log.poll(Some(State::IDLE), 6, LinkStatus::Live);
    assert_eq!(outcome, Some(PollOutcome::RecoverSucceeded));
    let snap = log.snapshot();
    assert_eq!(snap.tx_status, "RECOVERED OK");
    assert_eq!(snap.lines, vec!["", "SENT RECOVER...", "RECOVERED OK"]);

    let mut idx = FlightIndexState::new();
    idx.start_fetch(10);
    idx.after_command(Some(PollOutcome::Armed));
    assert_eq!(idx.state(), IndexState::Pending { packets_at_send: 10 });
    idx.after_command(outcome);
    assert_eq!(idx.state(), IndexState::Idle);
}

#[test]
fn chirp_logs_at_once_and_other_commands_not_at_all() {
    let mut log = CmdLogState::new();
    log.record_send(Command::CHIRP, 0, false);
    log.record_send(Command::PING, 0, false);
    let snap = log.snapshot();
    assert_eq!(snap.tx_status, "SENT CHIRP");
    assert_eq!(snap.lines, vec!["", "", "SENT CHIRP"]);
}

// --- Frame, link state, radio framing ------------------------------------------------

#[test]
fn frame_flags_from_the_latest_telemetry() {
    let coast = telemetry(State::COAST, Sensor::ALL | Sensor::CHG);
    assert!(!armed(Some(&coast)));
    assert!(recoverable(Some(&coast)));
    assert!(payload_charging(Some(&coast)));
    assert_eq!(nogo(Some(&coast), false), Some(NogoReason::Charging));
    assert!(!armed(None) && !recoverable(None) && !payload_charging(None));
    assert_eq!(nogo(None, true), None);
    assert!(!recoverable(Some(&telemetry(State::ARMED, 0))));
}

#[test]
fn fix_latch_survives_frames_without_a_fix() {
    let mut link = LinkState::new();
    let tel = telemetry(State::IDLE, 0);
    link.record_rx(tel, -60, 7, 1000);
    assert_eq!(link.fix, Some(LatchedFix { lat_bits: tel.lat_bits, lon_bits: tel.lon_bits, latched_at_ms: 1000 }));
    let mut no_fix = tel;
    no_fix.has_fix = false;
    link.record_rx(no_fix, -61, 6, 2000);
    assert_eq!(link.fix.unwrap().latched_at_ms, 1000);
    let mut zero = tel;
    zero.lat_bits = (-0.0f32).to_bits();
    link.record_rx(zero, -61, 6, 3000);
    assert_eq!(link.fix.unwrap().latched_at_ms, 1000);
    assert_eq!(link.age_ms(3500), Some(500));
    assert_eq!(LinkState::new().age_ms(10), None);
}

#[test]
fn radio_command_frame_and_receive_decoding() {
    let frame = pack_command_radio(0x0102, Command::CHIRP);
    assert_eq!(frame[..4], [0xFF, 0xFF, 0, 0]);
    assert_eq!(launchcast::packet::unpack_command(&frame[4..]), Some((0x0102, Command::CHIRP)));
    let tel = telemetry(State::BOOST, 0);
    let input_frame = {
        let mut buf = vec![0xFFu8, 0xFF, 0, 0];
        let again = TelemetryInput {
            counter: tel.counter,
            uptime_ms: tel.uptime_ms,
            state: tel.state,
            lat_bits: tel.lat_bits,
            lon_bits: tel.lon_bits,
            alt_baro_m: tel.alt_baro_m,
            speed_cms: tel.speed_cms,
            temp_dc: tel.temp_dc,
            accel_mg: tel.accel_mg,
            gyro_ddps: tel.gyro_ddps,
            batt: tel.batt,
            has_fix: tel.has_fix,
            satellites: tel.satellites,
            flight_count: tel.flight_count,
            sensors: tel.sensors,
            fw_version: tel.fw_version,
        };
        buf.extend_from_slice(&pack_telemetry(&again));
        buf
    };
    assert_eq!(decode_rx(&input_frame, input_frame.len()), RxOutcome::Telemetry(tel));
    assert_eq!(decode_rx(&input_frame, 4), RxOutcome::TooShort);
    assert_eq!(decode_rx(&input_frame, 20), RxOutcome::Rejected);

    // Each receive window is counted: accepted frames as packets,
    // rejected ones as rejects, header-less ones not at all.
    let mut counts = RxCounts::new();
    assert_eq!(receive_frame(&input_frame, input_frame.len(), &mut counts), Some(tel));
    assert_eq!(counts, RxCounts { packets: 1, rejects: 0 });
    assert_eq!(receive_frame(&input_frame, 20, &mut counts), None);
    assert_eq!(counts, RxCounts { packets: 1, rejects: 1 });
    assert_eq!(receive_frame(&input_frame, 4, &mut counts), None);
    assert_eq!(counts, RxCounts { packets: 1, rejects: 1 });
    let full = RxCounts { packets: u32::MAX, rejects: 7 };
    assert_eq!(count_rx(full, &RxOutcome::Telemetry(tel)), RxCounts { packets: 0, rejects: 7 });
    assert_eq!(count_rx(full, &RxOutcome::TooShort), full);
}

#[test]
fn sampled_levels_become_taps_and_holds() {
    let mut b = ButtonSampler::new();
    assert_eq!(b.poll([false, true, false], 0), vec![]);
    assert_eq!(b.poll([false, false, false], 50), vec![]);
    assert_eq!(b.poll([false, false, false], 300), vec![(1, Edge::Tap)]);
    assert_eq!(b.poll([true, false, false], 400), vec![]);
    assert_eq!(b.poll([true, false, false], 2400), vec![(0, Edge::Hold)]);
    assert_eq!(edge_name(Edge::Tap), "tap");
    assert_eq!(edge_name(Edge::Hold), "hold");
}

// --- What is drawn -------------------------------------------------------------------

#[test]
fn footer_names_what_each_button_does() {
    let s = ScreenState::new();
    let idle = telemetry(State::IDLE, Sensor::ALL);
    let f = footer(&s, Some(&idle), false, IndexState::Idle);
    assert_eq!(f.menu, "MENU>RECOVERY");
    assert_eq!(f.left, "HOLD:ARM");
    assert_eq!(f.right, "TAP:CHIRP");
    assert_eq!(footer(&s, Some(&idle), true, IndexState::Idle).left, "");
    let armed_tel = telemetry(State::ARMED, 0);
    assert_eq!(footer(&s, Some(&armed_tel), true, IndexState::Idle).left, "HOLD:DISARM");
    let landed = telemetry(State::LANDED, 0);
    assert_eq!(footer(&s, Some(&landed), true, IndexState::Idle).left, "HOLD:RECOVER");

    let mut s = ScreenState::new();
    to_flights(&mut s);
    let f = footer(&s, None, false, IndexState::Ready { count: 2 });
    assert_eq!((f.left.as_str(), f.right), ("TAP:CYCLE", "TAP:SELECT"));
    assert_eq!(footer(&s, None, false, IndexState::Empty).right, "TAP:REFRESH");
    assert_eq!(footer(&s, None, false, IndexState::Pending { packets_at_send: 0 }).right, "");
    advance(&mut s);
    assert_eq!(current(&s), FLIGHT);
    back(&mut s);
    back(&mut s);
    assert_eq!(current(&s), DIAG);
    let f = footer(&s, None, false, IndexState::Idle);
    assert_eq!((f.left.as_str(), f.right, f.right_x), ("TAP:BACK>RECOVERY", "TAP:CLR CACHE", 320));
    to_summary(&mut s);
    let f = footer(&s, None, false, IndexState::Idle);
    assert_eq!((f.menu.as_str(), f.left.as_str(), f.right), ("MENU>FLIGHTS", "", ""));
}

#[test]
fn body_follows_the_screen_unless_telemetry_is_missing() {
    let mut s = ScreenState::new();
    assert_eq!(screen_body(None, false, &s), ScreenBody::Missing);
    assert_eq!(screen_body(Some(60_001), true, &s), ScreenBody::Missing);
    assert_eq!(screen_body(Some(100), false, &s), ScreenBody::Blank);
    assert_eq!(screen_body(Some(100), true, &s), ScreenBody::Flight);
    advance(&mut s);
    assert_eq!(screen_body(Some(100), true, &s), ScreenBody::Recovery);
    to_summary(&mut s);
    assert_eq!(screen_body(Some(60_000), true, &s), ScreenBody::Summary);
}

#[test]
fn systems_check_rows() {
    assert_eq!(online(Sensor::ALL, Sensor::BARO), "ONLINE");
    assert_eq!(online(Sensor::ALL, Sensor::CHG), "OFFLINE");
    assert_eq!(gps_lock_label(true), "FIXED");
    assert_eq!(gps_lock_label(false), "SEARCH");
    assert!(!altitude_shown(State::BOOT));
    assert!(!altitude_shown(State::IDLE));
    assert!(altitude_shown(State::ARMED));
    assert_eq!(rocket_art(Some(NogoReason::LowBattery), false), RocketArt::LowBattery);
    assert_eq!(rocket_art(Some(NogoReason::Charging), true), RocketArt::Rocket { armed: true });
    assert_eq!(rocket_art(None, false), RocketArt::Rocket { armed: false });
}

#[test]
fn window_rotates_and_saturates() {
    let mut w = SampleWindow::new();
    assert_eq!(w.count(), 0);
    for i in 0..WINDOW_SAMPLES {
        assert_eq!(w.push(), (i, false));
    }
    assert_eq!(w.count(), 15);
    assert_eq!(w.push(), (0, true));
    assert_eq!(w.push(), (1, true));
    assert_eq!(w.count(), 15);
    w.reset();
    assert_eq!(w.count(), 0);
    assert_eq!(w.push(), (0, false));
}
