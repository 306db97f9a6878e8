use launchcast::nmea::{from_unix_ms, UtcDateTime};
use launchcast::screen_text::utc_stamp;
use launchcast::packet::Sensor;
use launchcast::screen_text::sensor_list;
use launchcast::flight_index::IndexState;
use launchcast::link::LinkStatus;
use launchcast::screen_text::{flight_rows, flights_view, FlightRow, FlightsView};
use launchcast::sharp_display::{reverse_bits, Framebuffer, CMD_VCOM, CMD_WRITE, HEIGHT, LINE_BYTES};

#[test]
fn address_bits_are_reversed() {
    assert_eq!(reverse_bits(1), 0x80);
    assert_eq!(reverse_bits(0xF0), 0x0F);
    assert_eq!(reverse_bits(0b1011_0010), 0b0100_1101);
    for n in 0..=255u8 {
        assert_eq!(reverse_bits(reverse_bits(n)), n);
        assert_eq!(reverse_bits(n), n.reverse_bits());
    }
}

#[test]
fn frames_alternate_vcom_and_carry_every_line() {
    let mut fb = Framebuffer::new();
    let first = fb.frame();
    assert_eq!(first.len(), 1 + HEIGHT * (LINE_BYTES + 2) + 1);
    assert_eq!(first[0], CMD_WRITE);
    assert_eq!(first[1], reverse_bits(1));
    assert!(first[2..2 + LINE_BYTES].iter().all(|&b| b == 0xFF));
    assert_eq!(first[2 + LINE_BYTES], 0);
    assert_eq!(first[2 + LINE_BYTES + 1], reverse_bits(2));
    assert_eq!(*first.last().unwrap(), 0);
    let second = fb.frame();
    assert_eq!(second[0], CMD_WRITE | CMD_VCOM);
    assert_eq!(fb.frame()[0], CMD_WRITE);
}

#[test]
fn pixels_map_to_bits_msb_first() {
    let mut fb = Framebuffer::new();
    fb.set_pixel(0, 0, true);
    fb.set_pixel(9, 1, true);
    fb.set_pixel(-1, 0, true);
    fb.set_pixel(400, 0, true);
    fb.set_pixel(0, 240, true);
    let f = fb.frame();
    assert_eq!(f[2], 0x7F);
    let line1 = 1 + (LINE_BYTES + 2) + 1;
    assert_eq!(f[line1 + 1], 0b1011_1111);
    fb.set_pixel(0, 0, false);
    assert_eq!(fb.frame()[2], 0xFF);
}

#[test]
fn timestamps_are_zero_padded() {
    assert_eq!(utc_stamp(&from_unix_ms(1_787_160_600_000)), "2026-08-19 17:30:00Z");
    let dt = UtcDateTime { year: 7, month: 1, day: 2, hour: 3, minute: 4, second: 5, millis: 999 };
    assert_eq!(utc_stamp(&dt), "0007-01-02 03:04:05Z");
    let dt = UtcDateTime { year: 65535, month: 12, day: 31, hour: 23, minute: 59, second: 59, millis: 0 };
    assert_eq!(utc_stamp(&dt), "65535-12-31 23:59:59Z");
}

#[test]
fn sensor_lists_are_space_separated() {
    assert_eq!(sensor_list(Sensor::ALL, true), "BARO IMU MAG GPS LOG BATT");
    assert_eq!(sensor_list(Sensor::ALL, false), "");
    assert_eq!(sensor_list(Sensor::BARO | Sensor::LOG, false), "IMU MAG GPS BATT");
}

#[test]
fn flights_list_shows_seven_rows_and_a_remainder() {
    assert_eq!(flights_view(IndexState::Idle, LinkStatus::Lost), FlightsView::Unavailable);
    assert_eq!(flights_view(IndexState::Idle, LinkStatus::Live), FlightsView::Loading);
    assert_eq!(flights_view(IndexState::Ready { count: 3 }, LinkStatus::Lost), FlightsView::List { count: 3 });
    let (rows, more) = flight_rows(3, 1);
    assert_eq!(rows, vec![
        FlightRow { number: 1, selected: false },
        FlightRow { number: 2, selected: true },
        FlightRow { number: 3, selected: false },
    ]);
    assert_eq!(more, None);
    let (rows, more) = flight_rows(10, 9);
    assert_eq!(rows.len(), 7);
    assert!(rows.iter().all(|r| !r.selected));
    assert_eq!(more, Some(3));
}
