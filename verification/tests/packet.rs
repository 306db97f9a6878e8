use launchcast::packet::{
    decode_gps_flags, encode_gps_flags, flight_index_bytes, flight_index_timestamps, pack_command, pack_flight_index, pack_summary,
    pack_telemetry, unpack_command, unpack_flight_index, unpack_summary, unpack_telemetry, Command,
    Sensor, State, SummaryInput, TelemetryInput, COMMAND_SIZE, MAGIC, MAX_STORED_FLIGHTS,
    PKT_COMMAND, PKT_FLIGHT_INDEX, PKT_SUMMARY, PKT_TELEMETRY, SUMMARY_SIZE, SYNC_WORD,
    TELEMETRY_SIZE,
};

// The wire values of a coasting rocket at 41.2565, -95.9345: 287 m,
// -14.2 m/s, 23.5 C, accel (0.02, -0.01, 0.98) g, gyro (1.5, -0.3, 12.0)
// deg/s, 3.94 V, fix with 9 satellites.
fn sample() -> TelemetryInput {
    TelemetryInput {
        counter: 42,
        uptime_ms: 123_456,
        state: State::COAST,
        lat_bits: 41.2565f32.to_bits(),
        lon_bits: (-95.9345f32).to_bits(),
        alt_baro_m: 287,
        speed_cms: -1420,
        temp_dc: 235,
        accel_mg: [20, -10, 980],
        gyro_ddps: [15, -3, 120],
        batt: 94,
        has_fix: true,
        satellites: 9,
        flight_count: 0,
        sensors: Sensor::ALL,
        fw_version: 7,
    }
}

#[test]
fn telemetry_is_40_bytes() {
    assert_eq!(TELEMETRY_SIZE, 40);
}

#[test]
fn command_is_7_bytes() {
    assert_eq!(COMMAND_SIZE, 7);
}

#[test]
fn telemetry_round_trip() {
    let out = unpack_telemetry(&pack_telemetry(&sample())).unwrap();
    assert_eq!(out.counter, 42);
    assert_eq!(out.uptime_ms, 123_456);
    assert_eq!(out.state, State::COAST);
    assert_eq!(out.state_name(), "COAST");
    assert_eq!(out.alt_baro_m, 287);
    assert_eq!(out.satellites, 9);
    assert_eq!(out.fw_version, 7);
    assert!(out.has_fix);
}

#[test]
fn scalar_precision() {
    let out = unpack_telemetry(&pack_telemetry(&sample())).unwrap();
    assert!((f32::from_bits(out.lat_bits) - 41.2565).abs() < 1e-4);
    assert!((f32::from_bits(out.lon_bits) - (-95.9345)).abs() < 1e-4);
    assert!((out.speed_cms as f32 / 100.0 - (-14.2)).abs() < 0.01);
    assert!((out.temp_dc as f32 / 10.0 - 23.5).abs() < 0.05);
    assert!((3.0 + out.batt as f32 / 100.0 - 3.94).abs() < 0.01);
}

#[test]
fn vector_round_trip() {
    let out = unpack_telemetry(&pack_telemetry(&sample())).unwrap();
    for (got, want) in out.accel_mg.iter().zip([0.02f32, -0.01, 0.98]) {
        assert!((*got as f32 / 1000.0 - want).abs() < 0.002);
    }
    for (got, want) in out.gyro_ddps.iter().zip([1.5f32, -0.3, 12.0]) {
        assert!((*got as f32 / 10.0 - want).abs() < 0.1);
    }
}

#[test]
fn reject_empty() {
    assert!(unpack_telemetry(&[]).is_none());
}

#[test]
fn reject_wrong_length() {
    assert!(unpack_telemetry(&[0u8; 39]).is_none());
    assert!(unpack_telemetry(&[0u8; 41]).is_none());
}

#[test]
fn reject_bad_magic() {
    let mut frame = pack_telemetry(&sample());
    frame[0] = 0x00;
    assert!(unpack_telemetry(&frame).is_none());
}

#[test]
fn reject_wrong_packet_type() {
    let mut frame = pack_telemetry(&sample());
    frame[1] = PKT_COMMAND;
    assert!(unpack_telemetry(&frame).is_none());
}

#[test]
fn reject_all_zeros() {
    assert!(unpack_telemetry(&[0u8; 40]).is_none());
}

#[test]
fn reject_all_ones() {
    assert!(unpack_telemetry(&[0xFFu8; 40]).is_none());
}

#[test]
fn gps_flags_round_trip() {
    for sats in [0u8, 1, 9, 12, 31] {
        let raw = encode_gps_flags(true, sats);
        let (fix, got) = decode_gps_flags(raw);
        assert!(fix);
        assert_eq!(got, sats);
    }
}

#[test]
fn gps_flags_no_fix() {
    let (fix, sats) = decode_gps_flags(encode_gps_flags(false, 7));
    assert!(!fix);
    assert_eq!(sats, 7);
}

#[test]
fn gps_satellites_saturate_at_31() {
    let (_, sats) = decode_gps_flags(encode_gps_flags(true, 40));
    assert_eq!(sats, 31);
}

#[test]
fn sensor_bits_are_distinct() {
    let bits: Vec<u8> = Sensor::NAMES.iter().map(|(bit, _)| *bit).collect();
    let mut unique = bits.clone();
    unique.sort_unstable();
    unique.dedup();
    assert_eq!(bits.len(), unique.len());
    for bit in bits {
        assert_eq!(bit & (bit - 1), 0, "not a single bit: {:#x}", bit);
    }
}

#[test]
fn sensor_all_covers_every_named_bit() {
    for (bit, _) in Sensor::NAMES {
        assert!(Sensor::ALL & bit != 0);
    }
}

#[test]
fn flight_ready_requires_baro_imu_log() {
    assert!(Sensor::flight_ready(Sensor::REQUIRED));
    assert!(Sensor::flight_ready(Sensor::ALL));
}

#[test]
fn flight_ready_fails_without_each_required() {
    for missing in [Sensor::BARO, Sensor::IMU, Sensor::LOG] {
        assert!(!Sensor::flight_ready(Sensor::ALL & !missing));
    }
}

#[test]
fn flight_ready_tolerates_optional_loss() {
    for optional in [Sensor::MAG, Sensor::GPS, Sensor::BATT] {
        assert!(Sensor::flight_ready(Sensor::ALL & !optional));
    }
}

#[test]
fn sensor_decode_partitions() {
    let flags = Sensor::BARO | Sensor::IMU | Sensor::LOG;
    let present: std::collections::HashSet<_> = Sensor::present(flags).into_iter().collect();
    let missing: std::collections::HashSet<_> = Sensor::missing(flags).into_iter().collect();
    assert_eq!(present, ["BARO", "IMU", "LOG"].into_iter().collect());
    assert_eq!(missing, ["MAG", "GPS", "BATT"].into_iter().collect());
}

#[test]
fn sensor_flags_survive_the_wire() {
    let flags = Sensor::BARO | Sensor::IMU | Sensor::LOG;
    let mut input = sample();
    input.sensors = flags;
    let out = unpack_telemetry(&pack_telemetry(&input)).unwrap();
    assert_eq!(out.sensors, flags);
}

#[test]
fn chg_is_excluded_from_names_all_and_required() {
    assert!(Sensor::NAMES.iter().all(|(bit, _)| *bit != Sensor::CHG));
    assert_eq!(Sensor::ALL & Sensor::CHG, 0);
    assert_eq!(Sensor::REQUIRED & Sensor::CHG, 0);
    assert!(Sensor::flight_ready(Sensor::ALL));
}

#[test]
fn chg_bit_survives_the_wire_alongside_others() {
    let flags = Sensor::BARO | Sensor::IMU | Sensor::LOG | Sensor::CHG;
    let mut input = sample();
    input.sensors = flags;
    let out = unpack_telemetry(&pack_telemetry(&input)).unwrap();
    assert!(out.sensors & Sensor::CHG != 0);
    assert_eq!(out.sensors, flags);
}

#[test]
fn every_state_has_a_name() {
    for (i, name) in State::NAMES.iter().enumerate() {
        assert_eq!(State::name(i as u8), *name);
    }
}

#[test]
fn unknown_state_does_not_raise() {
    assert_eq!(State::name(99), "UNKNOWN");
    assert_eq!(State::name(255), "UNKNOWN");
}

#[test]
fn state_values_are_sequential() {
    let ordered = [
        State::BOOT,
        State::IDLE,
        State::ARMED,
        State::BOOST,
        State::COAST,
        State::APOGEE,
        State::DESCENT,
        State::LANDED,
    ];
    let expected: Vec<u8> = (0..State::NAMES.len() as u8).collect();
    assert_eq!(ordered.to_vec(), expected);
}

#[test]
fn command_round_trip() {
    for cmd in [Command::PING, Command::CHIRP, Command::ARM, Command::DISARM] {
        assert_eq!(unpack_command(&pack_command(1234, cmd)), Some((1234, cmd)));
    }
}

#[test]
fn command_rejects_corrupted_byte() {
    let mut frame = pack_command(7, Command::CHIRP);
    frame[4] ^= 0xFF;
    assert!(unpack_command(&frame).is_none());
}

#[test]
fn command_checksum_catches_any_single_byte_flip() {
    for index in 0..7 {
        let mut frame = pack_command(99, Command::ARM);
        frame[index] ^= 0x01;
        assert!(unpack_command(&frame).is_none(), "index {} not covered", index);
    }
}

#[test]
fn command_rejects_wrong_length() {
    assert!(unpack_command(&[0u8; 6]).is_none());
    assert!(unpack_command(&[0u8; 8]).is_none());
}

#[test]
fn command_rejects_telemetry_frame() {
    assert!(unpack_command(&pack_telemetry(&sample())).is_none());
}

#[test]
fn command_seq_wraps_cleanly() {
    assert_eq!(unpack_command(&pack_command(65535, Command::PING)).unwrap().0, 65535);
    assert_eq!(unpack_command(&pack_command(65535u16.wrapping_add(1), Command::PING)).unwrap().0, 0);
}

#[test]
fn command_values_are_distinct() {
    let values = [Command::PING, Command::CHIRP, Command::ARM, Command::DISARM];
    let mut unique = values.to_vec();
    unique.sort_unstable();
    unique.dedup();
    assert_eq!(values.len(), unique.len());
}

#[test]
fn packet_types_are_distinct_and_nonzero() {
    let types = [PKT_TELEMETRY, PKT_COMMAND, PKT_SUMMARY, PKT_FLIGHT_INDEX];
    let mut unique = types.to_vec();
    unique.sort_unstable();
    unique.dedup();
    assert_eq!(types.len(), unique.len());
    assert!(types.iter().all(|&t| t != 0));
}

#[test]
fn flight_count_survives_the_wire() {
    let mut input = sample();
    input.flight_count = 12;
    let out = unpack_telemetry(&pack_telemetry(&input)).unwrap();
    assert_eq!(out.flight_count, 12);
}

fn sample_summary() -> SummaryInput {
    SummaryInput {
        flight_index: 3,
        wait_ms: 4_500,
        boost_ms: 1_600,
        coast_ms: 5_200,
        descent_ms: 42_000,
        arm_lat_bits: 41.2565f32.to_bits(),
        arm_lon_bits: (-95.9345f32).to_bits(),
        landed_lat_bits: 41.2601f32.to_bits(),
        landed_lon_bits: (-95.9298f32).to_bits(),
        max_speed_mps_bits: 68.3f32.to_bits(),
        max_alt_m_bits: 287.4f32.to_bits(),
        temp_at_max_alt_c_bits: (-8.2f32).to_bits(),
        pressure_at_max_alt_hpa_bits: 948.6f32.to_bits(),
        max_accel_g_bits: 12.7f32.to_bits(),
        max_gyro_dps_bits: 340.0f32.to_bits(),
        record_count: 5917,
        arm_epoch_s: 1_787_160_600,
    }
}

#[test]
fn summary_is_67_bytes() {
    assert_eq!(SUMMARY_SIZE, 67);
}

#[test]
fn summary_round_trip() {
    let out = unpack_summary(&pack_summary(&sample_summary())).unwrap();
    assert_eq!(out, sample_summary());
}

#[test]
fn summary_reject_wrong_length() {
    assert!(unpack_summary(&[0u8; 66]).is_none());
    assert!(unpack_summary(&[0u8; 68]).is_none());
}

#[test]
fn summary_reject_bad_magic() {
    let mut frame = pack_summary(&sample_summary());
    frame[0] = 0x00;
    assert!(unpack_summary(&frame).is_none());
}

#[test]
fn summary_reject_wrong_packet_type() {
    let mut frame = pack_summary(&sample_summary());
    frame[1] = PKT_TELEMETRY;
    assert!(unpack_summary(&frame).is_none());
}

#[test]
fn summary_rejects_a_telemetry_frame() {
    assert!(unpack_summary(&pack_telemetry(&sample())).is_none());
}

#[test]
fn get_summary_base_range_does_not_collide_with_other_commands() {
    let existing = [
        Command::PING,
        Command::CHIRP,
        Command::ARM,
        Command::DISARM,
        Command::GET_FLIGHT_INDEX,
    ];
    let range_end = Command::GET_SUMMARY_BASE as u16 + MAX_STORED_FLIGHTS as u16;
    for cmd in existing {
        assert!(
            (cmd as u16) < Command::GET_SUMMARY_BASE as u16 || (cmd as u16) >= range_end,
            "{cmd:#x} collides with the GET_SUMMARY_BASE range"
        );
    }
}

#[test]
fn flight_index_round_trip() {
    let timestamps = [1_787_000_000u32, 1_787_100_000, 1_787_200_000];
    let packed = pack_flight_index(&timestamps);
    let out = unpack_flight_index(&packed).expect("should decode");
    assert_eq!(out.as_slice(), &timestamps);
}

#[test]
fn flight_index_empty_list_round_trips() {
    let packed = pack_flight_index(&[]);
    assert_eq!(packed.len(), 3);
    let out = unpack_flight_index(&packed).expect("should decode");
    assert!(out.is_empty());
}

#[test]
fn flight_index_size_scales_with_count_not_the_max() {
    let packed = pack_flight_index(&[1_787_000_000]);
    assert_eq!(packed.len(), 3 + 4);
}

#[test]
fn flight_index_caps_at_max_stored_flights() {
    let timestamps = [1_787_000_000u32; 40];
    let packed = pack_flight_index(&timestamps);
    let out = unpack_flight_index(&packed).expect("should decode");
    assert_eq!(out.len(), MAX_STORED_FLIGHTS as usize);
}

#[test]
fn flight_index_rejects_a_count_that_does_not_match_the_payload() {
    let mut packed = pack_flight_index(&[1_787_000_000, 1_787_100_000]);
    packed[2] = 5;
    assert!(unpack_flight_index(&packed).is_none());
}

#[test]
fn flight_index_rejects_bad_magic() {
    let mut packed = pack_flight_index(&[1_787_000_000]);
    packed[0] = 0x00;
    assert!(unpack_flight_index(&packed).is_none());
}

#[test]
fn flight_index_rejects_wrong_packet_type() {
    let mut packed = pack_flight_index(&[1_787_000_000]);
    packed[1] = PKT_SUMMARY;
    assert!(unpack_flight_index(&packed).is_none());
}

#[test]
fn get_summary_base_range_fits_in_a_u8() {
    assert!(Command::GET_SUMMARY_BASE as u16 + MAX_STORED_FLIGHTS as u16 <= 256);
}

#[test]
fn magic_is_not_a_degenerate_byte() {
    assert_ne!(MAGIC, 0x00);
    assert_ne!(MAGIC, 0xFF);
}

#[test]
fn sync_word_avoids_lora_defaults() {
    assert!(![0x12u8, 0x34, 0x00].contains(&SYNC_WORD));
}

// --- Exact wire bytes ----------------------------------------------------------

#[test]
fn command_frame_bytes_are_exact() {
    // magic, type, seq 0x1234 little-endian, ARM, sum 0xA5+0x02+0x34+0x12+0x02 = 0xEF.
    assert_eq!(pack_command(0x1234, Command::ARM), [0xA5, 0x02, 0x34, 0x12, 0x02, 0xEF, 0x00]);
}

#[test]
fn telemetry_frame_layout_is_exact() {
    let frame = pack_telemetry(&sample());
    assert_eq!(&frame[0..4], &[MAGIC, PKT_TELEMETRY, 42, 0]);
    assert_eq!(&frame[17..19], &287i16.to_le_bytes());
    assert_eq!(&frame[19..21], &(-1420i16).to_le_bytes());
    assert_eq!(frame[35], 94);
    assert_eq!(frame[36], 1 | (9 << 1));
    assert_eq!(frame[38], Sensor::ALL);
    assert_eq!(frame[39], 7);
}

#[test]
fn sensor_names_come_in_table_order() {
    assert_eq!(Sensor::present(Sensor::ALL), vec!["BARO", "IMU", "MAG", "GPS", "LOG", "BATT"]);
    assert!(Sensor::missing(Sensor::ALL).is_empty());
    assert_eq!(Sensor::missing(0), vec!["BARO", "IMU", "MAG", "GPS", "LOG", "BATT"]);
}

#[test]
fn flight_index_bytes_decode_to_the_capped_list() {
    let timestamps: Vec<u32> = (0..40u32).map(|i| 1_700_000_000 + i).collect();
    let packed = pack_flight_index(&timestamps);
    let bytes = flight_index_bytes(&packed);
    assert_eq!(bytes.len(), 3 + 4 * 32);
    assert_eq!(&bytes[..3], &[MAGIC, PKT_FLIGHT_INDEX, 32]);
    let index = unpack_flight_index(bytes).expect("should decode");
    assert_eq!(flight_index_timestamps(&index), &timestamps[..32]);
    let one = pack_flight_index(&[7]);
    assert_eq!(flight_index_bytes(&one).len(), 7);
}
