use launchcast::flight_screen::{controller_rows, log_rows, rocket_rows};
use launchcast::packet::{Sensor, State, Telemetry};
use launchcast::screen_text::{
    arm_time_text, fetching_text, flight_row_text, flight_rows, record_count_text, request_text, summary_title,
};
use launchcast::packet::SummaryInput;
use launchcast::summary_request::SummaryRequest;

fn frame(state: u8, sensors: u8, has_fix: bool, fw_version: u8) -> Telemetry {
    Telemetry {
        counter: 1,
        uptime_ms: 1000,
        state,
        lat_bits: 0,
        lon_bits: 0,
        alt_baro_m: 0,
        speed_cms: 0,
        temp_dc: 215,
        accel_mg: [0, 0, 1000],
        gyro_ddps: [0, 0, 0],
        batt: 100,
        has_fix,
        satellites: 7,
        flight_count: 2,
        sensors,
        fw_version,
    }
}

#[test]
fn rocket_table_rows_read_the_frame() {
    let tel = frame(State::ARMED, Sensor::BARO | Sensor::LOG, true, 12);
    let rows = rocket_rows(&tel, Some(-60));
    assert_eq!(rows.systems, "SYSTEMS CHECK:   v12");
    assert_eq!(rows.atmosphere, "ATMOSPHERE:      ONLINE");
    assert_eq!(rows.accelerometer, "ACCELEROMETER:   OFFLINE");
    assert_eq!(rows.magnetometer, "MAGNETOMETER:    OFFLINE");
    assert_eq!(rows.filesystem, "FILESYSTEM:      ONLINE");
    assert_eq!(rows.gps_lock, "GPS LOCK:        FIXED");
    assert_eq!(rows.signal, "SIGNAL STRENGTH: 75%");
    assert_eq!(rows.status, "STATUS:          ARMED");
}

#[test]
fn rocket_table_without_link_or_fix() {
    let tel = frame(9, 0, false, 0);
    let rows = rocket_rows(&tel, None);
    assert_eq!(rows.systems, "SYSTEMS CHECK:   v0");
    assert_eq!(rows.gps_lock, "GPS LOCK:        SEARCH");
    assert_eq!(rows.signal, "SIGNAL STRENGTH: 0%");
    assert_eq!(rows.status, "STATUS:          UNKNOWN");
    let strong = rocket_rows(&tel, Some(-40));
    assert_eq!(strong.signal, "SIGNAL STRENGTH: 100%");
}

#[test]
fn controller_rows_show_firmware_and_own_fix() {
    let rows = controller_rows(false);
    assert_eq!(rows.firmware, "FIRMWARE: v2");
    assert_eq!(rows.gps_lock, "GPS LOCK: SEARCH");
    assert_eq!(controller_rows(true).gps_lock, "GPS LOCK: FIXED");
}

#[test]
fn command_log_skips_empty_lines_but_keeps_rows() {
    let lines = vec!["", "SENT ARM...", "ARMED OK"];
    assert_eq!(log_rows(&lines), vec![(1, "SENT ARM..."), (2, "ARMED OK")]);
    assert!(log_rows(&vec!["", "", ""]).is_empty());
}

#[test]
fn flights_list_rows_mark_the_cursor() {
    let (rows, more) = flight_rows(3, 1);
    let texts: Vec<String> = rows.into_iter().map(flight_row_text).collect();
    assert_eq!(texts, vec![" FLIGHT 1", ">FLIGHT 2", " FLIGHT 3"]);
    assert_eq!(more, None);
    assert_eq!(fetching_text(3, 12), "FETCHING LOGS: 3/12...");
}

fn summary(flight_index: u8, record_count: u32, arm_epoch_s: u32) -> SummaryInput {
    SummaryInput {
        flight_index,
        wait_ms: 1000,
        boost_ms: 1500,
        coast_ms: 4000,
        descent_ms: 30000,
        arm_lat_bits: 0,
        arm_lon_bits: 0,
        landed_lat_bits: 0,
        landed_lon_bits: 0,
        max_speed_mps_bits: 0,
        max_alt_m_bits: 0,
        temp_at_max_alt_c_bits: 0,
        pressure_at_max_alt_hpa_bits: 0,
        max_accel_g_bits: 0,
        max_gyro_dps_bits: 0,
        record_count,
        arm_epoch_s,
    }
}

#[test]
fn summary_screen_messages_follow_the_request() {
    assert_eq!(request_text(&SummaryRequest::Idle), vec!["NO FLIGHT SELECTED", "MENU to go back and pick one"]);
    assert_eq!(
        request_text(&SummaryRequest::Pending { index: 2, packets_at_send: 7 }),
        vec!["REQUESTING FLIGHT 3..."]
    );
    assert_eq!(
        request_text(&SummaryRequest::Failed { index: 0 }),
        vec!["NO RESPONSE FOR FLIGHT 1", "out of range, or link too weak", "MENU, then try again"]
    );
    assert!(request_text(&SummaryRequest::Ready(summary(0, 1, 0))).is_empty());
}

#[test]
fn summary_screen_integer_lines() {
    let s = summary(4, 1234, 1_787_160_600);
    assert_eq!(summary_title(&s), "FLIGHT 5");
    assert_eq!(record_count_text(&s), "1234 LOG RECORDS");
    assert_eq!(arm_time_text(&s), "ARMED 2026-08-19 17:30:00Z");
    assert_eq!(arm_time_text(&summary(0, 0, 0)), "ARMED: unknown (no GPS fix at arm)");
}
