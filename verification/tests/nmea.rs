use launchcast::nmea::{
    checksum, framed_command, from_unix_ms, parse_rmc, parse_utc_datetime, unix_ms, NmeaLineReader,
    RawCoordinate, RmcSentence, UtcDateTime,
};

const EXAMPLE_RMC: &str = "$GPRMC,123519,A,4807.038,N,01131.000,E,022.4,084.4,230394,003.1,W*6A";

/// Decimal degrees of a `ddmm.mmmm` coordinate, as the display shows it.
fn degrees(c: &RawCoordinate) -> f32 {
    let value: f32 = c.digits.parse().unwrap();
    let whole = (value / 100.0).trunc();
    let decimal = whole + (value - whole * 100.0) / 60.0;
    if c.negative {
        -decimal
    } else {
        decimal
    }
}

fn speed_knots(fix: &RmcSentence) -> f32 {
    fix.speed.parse().unwrap_or(0.0)
}

fn track_deg(fix: &RmcSentence) -> Option<f32> {
    fix.track.as_ref().and_then(|t| t.parse().ok())
}

#[test]
fn nmea_parses_the_textbook_example() {
    let fix = parse_rmc(EXAMPLE_RMC).expect("valid sentence should parse");
    assert!(fix.valid);
    assert!((degrees(&fix.lat) - 48.1173).abs() < 0.001);
    assert!((degrees(&fix.lon) - 11.516_67).abs() < 0.001);
    assert!((speed_knots(&fix) - 22.4).abs() < 0.001);
    assert_eq!(track_deg(&fix), Some(84.4));
}

#[test]
fn textbook_example_date_and_time_fields_parse_correctly() {
    let fix = parse_rmc(EXAMPLE_RMC).expect("valid sentence should parse");
    let utc = fix.utc.expect("time and date fields are both present");
    assert_eq!(
        utc,
        UtcDateTime { year: 2094, month: 3, day: 23, hour: 12, minute: 35, second: 19, millis: 0 }
    );
}

#[test]
fn unix_ms_matches_known_reference_points() {
    let y2k = UtcDateTime { year: 2000, month: 1, day: 1, hour: 0, minute: 0, second: 0, millis: 0 };
    assert_eq!(unix_ms(&y2k), 946_684_800_000);

    let recent = UtcDateTime { year: 2026, month: 8, day: 19, hour: 17, minute: 30, second: 0, millis: 0 };
    assert_eq!(unix_ms(&recent), 1_787_160_600_000);
}

#[test]
fn from_unix_ms_matches_known_reference_points() {
    let y2k = UtcDateTime { year: 2000, month: 1, day: 1, hour: 0, minute: 0, second: 0, millis: 0 };
    assert_eq!(from_unix_ms(946_684_800_000), y2k);

    let recent = UtcDateTime { year: 2026, month: 8, day: 19, hour: 17, minute: 30, second: 0, millis: 0 };
    assert_eq!(from_unix_ms(1_787_160_600_000), recent);
}

#[test]
fn unix_ms_round_trips_through_from_unix_ms() {
    let dt = UtcDateTime { year: 2026, month: 12, day: 31, hour: 23, minute: 59, second: 58, millis: 123 };
    assert_eq!(from_unix_ms(unix_ms(&dt)), dt);
}

#[test]
fn fractional_seconds_are_parsed_as_milliseconds() {
    let sentence = "$GPRMC,123519.500,A,4807.038,N,01131.000,E,022.4,084.4,230394,003.1,W*71";
    let fix = parse_rmc(sentence).expect("valid sentence should parse");
    let utc = fix.utc.expect("time and date fields are both present");
    assert_eq!(utc.second, 19);
    assert_eq!(utc.millis, 500);
}

#[test]
fn missing_time_field_leaves_utc_none() {
    let sentence = "$GPRMC,,A,4807.038,N,01131.000,E,022.4,084.4,230394,003.1,W*67";
    let fix = parse_rmc(sentence).expect("still parses -- utc just isn't available");
    assert_eq!(fix.utc, None);
}

#[test]
fn nmea_south_and_west_are_negative() {
    let sentence = "$GPRMC,123519,A,4807.038,S,01131.000,W,022.4,084.4,230394,003.1,W*65";
    let fix = parse_rmc(sentence).expect("valid sentence should parse");
    assert!(degrees(&fix.lat) < 0.0);
    assert!(degrees(&fix.lon) < 0.0);
}

#[test]
fn nmea_status_v_is_not_valid() {
    let sentence = "$GPRMC,123519,V,4807.038,N,01131.000,E,022.4,084.4,230394,003.1,W*7D";
    let fix = parse_rmc(sentence).expect("still parses -- just marked invalid");
    assert!(!fix.valid);
}

#[test]
fn nmea_bad_checksum_is_rejected() {
    let sentence = "$GPRMC,123519,A,4807.038,N,01131.000,E,022.4,084.4,230394,003.1,W*00";
    assert_eq!(parse_rmc(sentence), None);
}

#[test]
fn nmea_non_rmc_sentences_are_ignored() {
    let gga = "$GPGGA,123519,4807.038,N,01131.000,E,1,08,0.9,545.4,M,46.9,M,,*47";
    assert_eq!(parse_rmc(gga), None);
}

#[test]
fn nmea_empty_track_angle_is_none() {
    let sentence = "$GPRMC,123519,A,4807.038,N,01131.000,E,022.4,,230394,003.1,W*4C";
    let fix = parse_rmc(sentence).expect("valid sentence should parse");
    assert_eq!(track_deg(&fix), None);
}

#[test]
fn nmea_checksum_matches_the_textbook_example() {
    assert_eq!(checksum("PMTK220,100"), 0x2F);
}

#[test]
fn nmea_checksum_matches_the_outgoing_gps_init_commands() {
    assert_eq!(checksum("PMTK313,1"), 0x2E);
    assert_eq!(checksum("PMTK301,2"), 0x2E);
}

#[test]
fn nmea_line_reader_assembles_a_sentence_split_across_feeds() {
    let mut reader: NmeaLineReader<128> = NmeaLineReader::new();
    for &byte in EXAMPLE_RMC.as_bytes() {
        assert_eq!(reader.feed(byte), None);
    }
    assert_eq!(reader.feed(b'\r'), None);
    let line = reader.feed(b'\n').expect("CRLF should terminate the sentence");
    assert_eq!(line.as_str(), EXAMPLE_RMC);
}

#[test]
fn nmea_line_reader_drops_filler_linefeeds_not_preceded_by_cr() {
    let mut reader: NmeaLineReader<128> = NmeaLineReader::new();
    for _ in 0..5 {
        assert_eq!(reader.feed(0x0A), None);
    }
    for &byte in EXAMPLE_RMC.as_bytes() {
        assert_eq!(reader.feed(byte), None);
    }
    for _ in 0..3 {
        assert_eq!(reader.feed(0x0A), None);
    }
    assert_eq!(reader.feed(b'\r'), None);
    let line = reader.feed(b'\n').expect("CRLF should still terminate correctly");
    assert_eq!(line.as_str(), EXAMPLE_RMC);
}

#[test]
fn nmea_line_reader_handles_back_to_back_sentences() {
    let mut reader: NmeaLineReader<128> = NmeaLineReader::new();
    let mut lines: Vec<String> = Vec::new();
    let stream = format!("{EXAMPLE_RMC}\r\n{EXAMPLE_RMC}\r\n");
    for &byte in stream.as_bytes() {
        if let Some(line) = reader.feed(byte) {
            lines.push(line);
        }
    }
    assert_eq!(lines.len(), 2);
    assert_eq!(lines[0].as_str(), EXAMPLE_RMC);
    assert_eq!(lines[1].as_str(), EXAMPLE_RMC);
}

// --- Beyond the reference cases ------------------------------------------------

#[test]
fn raw_fields_are_handed_back_as_written() {
    let fix = parse_rmc(EXAMPLE_RMC).unwrap();
    assert_eq!(fix.lat, RawCoordinate { digits: "4807.038".to_string(), negative: false });
    assert_eq!(fix.lon, RawCoordinate { digits: "01131.000".to_string(), negative: false });
    assert_eq!(fix.speed, "022.4");
    assert_eq!(fix.track.as_deref(), Some("084.4"));
}

#[test]
fn surrounding_whitespace_and_lower_case_checksum_are_accepted() {
    let sentence = "  $GPRMC,123519,A,4807.038,N,01131.000,E,022.4,084.4,230394,003.1,W*6a \r\n";
    assert!(parse_rmc(sentence).is_some());
}

#[test]
fn missing_dollar_or_star_is_rejected() {
    assert_eq!(parse_rmc("GPRMC,123519,A,4807.038,N,01131.000,E,022.4,084.4,230394,003.1,W*6A"), None);
    assert_eq!(parse_rmc("$GPRMC,123519,A,4807.038,N,01131.000,E,022.4,084.4,230394,003.1,W"), None);
    assert_eq!(parse_rmc(""), None);
}

#[test]
fn too_few_fields_or_bad_hemisphere_are_rejected() {
    // Nine fields only (no date): XOR of the body is 0x1F.
    let body = "GPRMC,123519,A,4807.038,N,01131.000,E,022.4,084.4";
    let sentence = format!("${}*{:02X}", body, checksum(body));
    assert_eq!(parse_rmc(&sentence), None);
    let body = "GPRMC,123519,A,4807.038,X,01131.000,E,022.4,084.4,230394";
    let sentence = format!("${}*{:02X}", body, checksum(body));
    assert_eq!(parse_rmc(&sentence), None);
    let body = "GPRMC,123519,A,,N,01131.000,E,022.4,084.4,230394";
    let sentence = format!("${}*{:02X}", body, checksum(body));
    assert_eq!(parse_rmc(&sentence), None);
}

#[test]
fn utc_fields_parse_with_any_fraction_length() {
    let d = |t: &str, date: &str| parse_utc_datetime(t, date);
    assert_eq!(d("123519.5", "230394").unwrap().millis, 500);
    assert_eq!(d("123519.25", "230394").unwrap().millis, 250);
    assert_eq!(d("123519.1234", "230394").unwrap().millis, 123);
    assert_eq!(d("123519.0000000000001", "230394").unwrap().millis, 0);
    assert_eq!(d("123519.", "230394").unwrap().millis, 0);
    assert_eq!(d("12351", "230394"), None);
    assert_eq!(d("123519", "23039"), None);
    assert_eq!(d("12a519", "230394"), None);
    assert_eq!(d("123519.5x", "230394"), None);
    assert_eq!(
        d("+1+2+3", "+1+2+3"),
        Some(UtcDateTime { year: 2003, month: 2, day: 1, hour: 1, minute: 2, second: 3, millis: 0 })
    );
}

#[test]
fn framed_command_appends_the_checksum_in_hex() {
    assert_eq!(framed_command("PMTK220,100"), "$PMTK220,100*2F\r\n");
    assert_eq!(framed_command("PMTK313,1"), "$PMTK313,1*2E\r\n");
    assert_eq!(framed_command(""), "$*00\r\n");
}

#[test]
fn line_reader_discards_an_overlong_line() {
    let mut reader: NmeaLineReader<8> = NmeaLineReader::new();
    for &byte in b"$GPRMC,1234567" {
        assert_eq!(reader.feed(byte), None);
    }
    assert_eq!(reader.feed(b'\r'), None);
    // The line overflowed: it is dropped whole, not cut to its tail.
    assert_eq!(reader.feed(b'\n'), None);
    for &byte in b"$OK*00\r" {
        assert_eq!(reader.feed(byte), None);
    }
    assert_eq!(reader.feed(b'\n').as_deref(), Some("$OK*00"));
}

#[test]
fn line_reader_drops_a_line_that_outgrows_a_small_buffer() {
    let mut reader: NmeaLineReader<4> = NmeaLineReader::new();
    for &byte in b"abcdefg\r\n" {
        assert_eq!(reader.feed(byte), None);
    }
    // A line that fits exactly with its CR is still handed back.
    for &byte in b"abc\r" {
        assert_eq!(reader.feed(byte), None);
    }
    assert_eq!(reader.feed(b'\n').as_deref(), Some("abc"));
    // One byte more and it is dropped.
    for &byte in b"abcd\r\n" {
        assert_eq!(reader.feed(byte), None);
    }
}

#[test]
fn line_reader_ignores_a_bare_crlf() {
    let mut reader: NmeaLineReader<16> = NmeaLineReader::new();
    assert_eq!(reader.feed(b'\r'), None);
    assert_eq!(reader.feed(b'\n'), None);
}

#[test]
fn ground_parser_needs_no_date_field() {
    let body = "GPRMC,123519,A,4807.038,N,01131.000,E,022.4,084.4";
    let sentence = format!("${}*{:02X}", body, checksum(body));
    let fix = launchcast::ground_nmea::parse_rmc(&sentence).expect("nine fields are enough");
    assert!(fix.valid);
    assert_eq!(fix.utc, None);
    assert_eq!(fix.track.as_deref(), Some("084.4"));
    let full = launchcast::ground_nmea::parse_rmc(EXAMPLE_RMC).unwrap();
    assert_eq!(full.utc, None);
    assert_eq!(full.lat, parse_rmc(EXAMPLE_RMC).unwrap().lat);
}

#[test]
fn checksum_of_a_concatenation_is_the_xor_of_the_parts() {
    assert_eq!(checksum(""), 0);
    assert_eq!(checksum("PMTK220,100"), checksum("PMTK") ^ checksum("220,100"));
    assert_eq!(checksum("PMTK220,100"), 0x2F);
}
