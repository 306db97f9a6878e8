//! Packet definitions shared by the rocket and the handheld.
//!
//! All multi-byte fields are little-endian with no padding. Physical
//! quantities travel as scaled integers; the two `f32` coordinates (and
//! the `f32` summary statistics) travel as their IEEE-754 bit patterns,
//! which this module carries as plain `u32` values and copies verbatim.
use vstd::prelude::*;

verus! {

// --- Protocol identity -------------------------------------------------------

/// Binary 10100101; alternating bits and its own bit-reverse. Confirms a
/// received frame is meant for us.
pub const MAGIC: u8 = 0xA5;

/// Non-default RFM95 sync word shared by both radios.
pub const SYNC_WORD: u8 = 0x2B;

pub const PKT_TELEMETRY: u8 = 0x01;
pub const PKT_COMMAND: u8 = 0x02;
pub const PKT_SUMMARY: u8 = 0x03;
pub const PKT_FLIGHT_INDEX: u8 = 0x04;

pub const TELEMETRY_SIZE: usize = 40;
pub const COMMAND_SIZE: usize = 7;
pub const SUMMARY_SIZE: usize = 67;

// --- Little-endian helpers -----------------------------------------------------

/// Little-endian encoding of a `u16`.
pub open spec fn le16(x: u16) -> Seq<u8> {
    seq![(x % 256) as u8, (x / 256) as u8]
}

/// Little-endian encoding of a `u32`.
pub open spec fn le32(x: u32) -> Seq<u8> {
    seq![
        (x % 256) as u8,
        ((x / 256) % 256) as u8,
        ((x / 65536) % 256) as u8,
        (x / 16777216) as u8,
    ]
}

/// The two's-complement bit pattern of an `i16`, as a `u16`.
pub open spec fn i16_bits(x: i16) -> u16 {
    if x >= 0 {
        x as u16
    } else {
        (x + 65536) as u16
    }
}

/// Little-endian encoding of an `i16`.
pub open spec fn le16s(x: i16) -> Seq<u8> {
    le16(i16_bits(x))
}

/// Byte `k` (0 = least significant) of a `u16`.
pub open spec fn u16_byte(x: u16, k: int) -> u8 {
    le16(x)[k]
}

/// Byte `k` (0 = least significant) of a `u32`.
pub open spec fn u32_byte(x: u32, k: int) -> u8 {
    le32(x)[k]
}

/// Byte `k` (0 = least significant) of an `i16`'s two's-complement form.
pub open spec fn i16_byte(x: i16, k: int) -> u8 {
    le16s(x)[k]
}

/// The `u16` stored little-endian at `s[off..off + 2]`.
pub open spec fn get_u16(s: Seq<u8>, off: int) -> u16 {
    (s[off] + 256 * s[off + 1]) as u16
}

/// The `i16` stored little-endian (two's complement) at `s[off..off + 2]`.
pub open spec fn get_i16(s: Seq<u8>, off: int) -> i16 {
    let u = get_u16(s, off);
    if u < 32768 {
        u as i16
    } else {
        (u - 65536) as i16
    }
}

/// The `u32` stored little-endian at `s[off..off + 4]`.
pub open spec fn get_u32(s: Seq<u8>, off: int) -> u32 {
    (s[off] + 256 * s[off + 1] + 65536 * s[off + 2] + 16777216 * s[off + 3]) as u32
}

fn u16_le_bytes(x: u16) -> (r: (u8, u8))
    ensures
        seq![r.0, r.1] == le16(x),
{
    ((x % 256) as u8, (x / 256) as u8)
}

fn u32_le_bytes(x: u32) -> (r: (u8, u8, u8, u8))
    ensures
        seq![r.0, r.1, r.2, r.3] == le32(x),
{
    ((x % 256) as u8, ((x / 256) % 256) as u8, ((x / 65536) % 256) as u8, (x / 16777216) as u8)
}

fn i16_le_bytes(x: i16) -> (r: (u8, u8))
    ensures
        seq![r.0, r.1] == le16s(x),
{
    let u: u16 = if x >= 0 {
        x as u16
    } else {
        (x as i32 + 65536) as u16
    };
    u16_le_bytes(u)
}

fn read_u16(data: &[u8], off: usize) -> (r: u16)
    requires
        off + 2 <= data@.len(),
    ensures
        r == get_u16(data@, off as int),
{
    data[off] as u16 + 256 * (data[off + 1] as u16)
}

fn read_i16(data: &[u8], off: usize) -> (r: i16)
    requires
        off + 2 <= data@.len(),
    ensures
        r == get_i16(data@, off as int),
{
    let u = read_u16(data, off);
    if u < 32768 {
        u as i16
    } else {
        (u as i32 - 65536) as i16
    }
}

fn read_u32(data: &[u8], off: usize) -> (r: u32)
    requires
        off + 4 <= data@.len(),
    ensures
        r == get_u32(data@, off as int),
{
    data[off] as u32 + 256 * (data[off + 1] as u32) + 65536 * (data[off + 2] as u32) + 16777216 * (
    data[off + 3] as u32)
}

/// Decoding what [`le16`] encodes gives the value back.
pub proof fn lemma_le16_round_trip(x: u16)
    ensures
        get_u16(le16(x), 0) == x,
{
}

/// Decoding what [`le16s`] encodes gives the value back.
pub proof fn lemma_le16s_round_trip(x: i16)
    ensures
        get_i16(le16s(x), 0) == x,
{
}

/// Decoding what [`le32`] encodes gives the value back.
pub proof fn lemma_le32_round_trip(x: u32)
    ensures
        get_u32(le32(x), 0) == x,
{
}

// --- Command: handheld -> rocket ---------------------------------------------
//
//  offset  field      type    notes
//   0      magic      u8      0xA5
//   1      pkt_type   u8      0x02
//   2      seq        u16     increments; rocket rejects replays
//   4      cmd        u8      Command::*
//   5      checksum   u16     sum of bytes 0..4, mod 65536

/// Sum of the first five bytes of `s`, mod 65536.
pub open spec fn command_sum(s: Seq<u8>) -> u16 {
    ((s[0] + s[1] + s[2] + s[3] + s[4]) % 65536) as u16
}

/// The 7 bytes [`pack_command`] produces for `(seq, cmd)`.
pub open spec fn command_frame(seq: u16, cmd: u8) -> Seq<u8> {
    let head = seq![MAGIC, PKT_COMMAND] + le16(seq) + seq![cmd];
    head + le16(command_sum(head))
}

/// Whether [`unpack_command`] accepts `s`: right length, magic and type,
/// and a checksum that matches the first five bytes.
pub open spec fn command_valid(s: Seq<u8>) -> bool {
    &&& s.len() == COMMAND_SIZE
    &&& s[0] == MAGIC
    &&& s[1] == PKT_COMMAND
    &&& get_u16(s, 5) == command_sum(s)
}

/// Build a 7-byte command frame.
pub fn pack_command(seq: u16, cmd: u8) -> (r: [u8; COMMAND_SIZE])
    ensures
        r@ == command_frame(seq, cmd),
{
    let (s0, s1) = u16_le_bytes(seq);
    let sum: u16 = MAGIC as u16 + PKT_COMMAND as u16 + s0 as u16 + s1 as u16 + cmd as u16;
    let (c0, c1) = u16_le_bytes(sum);
    let r = [MAGIC, PKT_COMMAND, s0, s1, cmd, c0, c1];
    assert(r@ =~= command_frame(seq, cmd));
    r
}

/// Return `(seq, cmd)`, or `None` on wrong length, bad magic/type, or a
/// checksum mismatch.
pub fn unpack_command(data: &[u8]) -> (r: Option<(u16, u8)>)
    ensures
        r == (if command_valid(data@) {
            Some((get_u16(data@, 2), data@[4]))
        } else {
            None
        }),
{
    if data.len() != COMMAND_SIZE {
        return None;
    }
    if data[0] != MAGIC || data[1] != PKT_COMMAND {
        return None;
    }
    let seq = read_u16(data, 2);
    let cmd = data[4];
    let received = read_u16(data, 5);
    let sum: u16 = data[0] as u16 + data[1] as u16 + data[2] as u16 + data[3] as u16 + data[4] as u16;
    if received != sum {
        return None;
    }
    Some((seq, cmd))
}

/// A packed command unpacks to the same `(seq, cmd)`.
pub proof fn lemma_command_round_trip(seq: u16, cmd: u8)
    ensures
        command_valid(command_frame(seq, cmd)),
        get_u16(command_frame(seq, cmd), 2) == seq,
        command_frame(seq, cmd)[4] == cmd,
{
}

/// Changing any single byte of a packed command frame, to any other
/// value, makes it fail validation.
pub proof fn lemma_command_detects_any_single_byte_change(seq: u16, cmd: u8, i: int, v: u8)
    requires
        0 <= i < COMMAND_SIZE,
        v != command_frame(seq, cmd)[i],
    ensures
        !command_valid(command_frame(seq, cmd).update(i, v)),
{
    let f = command_frame(seq, cmd);
    let g = f.update(i, v);
    assert(g[0] == f[0] || i == 0);
}


/// How many completed flights the rocket keeps, and the number of
/// command-byte values reserved for [`Command::GET_SUMMARY_BASE`].
pub const MAX_STORED_FLIGHTS: u8 = 32;

/// Command byte values (handheld -> rocket).
pub struct Command;

impl Command {
    /// Request nothing; presence test.
    pub const PING: u8 = 0x10;
    /// Sound the buzzer for a few seconds.
    pub const CHIRP: u8 = 0x01;
    /// IDLE -> ARMED.
    pub const ARM: u8 = 0x02;
    /// ARMED -> IDLE (abort), or, from any later state, RECOVER.
    pub const DISARM: u8 = 0x03;
    /// Request flight N's summary by sending `GET_SUMMARY_BASE + N`.
    pub const GET_SUMMARY_BASE: u8 = 0x20;
    /// Request the ordered list of ARM timestamps of the stored flights.
    pub const GET_FLIGHT_INDEX: u8 = 0x05;
}

// --- Flight state machine ----------------------------------------------------

/// Flight state values carried in telemetry.
pub struct State;

impl State {
    pub const BOOT: u8 = 0;
    pub const IDLE: u8 = 1;
    pub const ARMED: u8 = 2;
    pub const BOOST: u8 = 3;
    pub const COAST: u8 = 4;
    pub const APOGEE: u8 = 5;
    pub const DESCENT: u8 = 6;
    pub const LANDED: u8 = 7;

    pub const NAMES: [&'static str; 8] = [
        "BOOT", "IDLE", "ARMED", "BOOST", "COAST", "APOGEE", "DESCENT", "LANDED",
    ];

    /// The name of a state value; `"UNKNOWN"` for anything out of range.
    pub fn name(value: u8) -> (r: &'static str)
        ensures
            r == state_name(value),
    {
        match value {
            0 => "BOOT",
            1 => "IDLE",
            2 => "ARMED",
            3 => "BOOST",
            4 => "COAST",
            5 => "APOGEE",
            6 => "DESCENT",
            7 => "LANDED",
            _ => "UNKNOWN",
        }
    }
}

/// The name [`State::name`] gives a state value.
pub open spec fn state_name(value: u8) -> &'static str {
    if value == 0 {
        "BOOT"
    } else if value == 1 {
        "IDLE"
    } else if value == 2 {
        "ARMED"
    } else if value == 3 {
        "BOOST"
    } else if value == 4 {
        "COAST"
    } else if value == 5 {
        "APOGEE"
    } else if value == 6 {
        "DESCENT"
    } else if value == 7 {
        "LANDED"
    } else {
        "UNKNOWN"
    }
}

// --- Sensor health bitfield --------------------------------------------------

/// One bit per peripheral, reported in every telemetry frame.
pub struct Sensor;

impl Sensor {
    /// BMP580 pressure/temp.
    pub const BARO: u8 = 0x01;
    /// LSM6DSOX accel/gyro.
    pub const IMU: u8 = 0x02;
    /// LIS3MDL magnetometer.
    pub const MAG: u8 = 0x04;
    /// PA1010D GPS.
    pub const GPS: u8 = 0x08;
    /// Filesystem writable; flight log is recording.
    pub const LOG: u8 = 0x10;
    /// Battery ADC readable.
    pub const BATT: u8 = 0x20;
    /// USB power present. A live power state, not a peripheral health
    /// flag, so it is left out of `NAMES`, `ALL` and `REQUIRED`.
    pub const CHG: u8 = 0x40;

    pub const NAMES: [(u8, &'static str); 6] = [
        (0x01, "BARO"),
        (0x02, "IMU"),
        (0x04, "MAG"),
        (0x08, "GPS"),
        (0x10, "LOG"),
        (0x20, "BATT"),
    ];

    pub const ALL: u8 = 0x3F;

    /// Flight-critical subset: BARO, IMU and LOG.
    pub const REQUIRED: u8 = 0x13;

    /// Whether every flight-critical sensor is present in `raw`.
    pub fn flight_ready(raw: u8) -> (r: bool)
        ensures
            r == (raw & Sensor::REQUIRED == Sensor::REQUIRED),
    {
        raw & Self::REQUIRED == Self::REQUIRED
    }

    /// Names of the named bits set in `raw`, in `NAMES` order.
    pub fn present(raw: u8) -> (r: Vec<&'static str>)
        ensures
            r@ == sensor_names_where(raw, true),
    {
        Self::collect_names(raw, true)
    }

    /// Names of the named bits clear in `raw`, in `NAMES` order.
    pub fn missing(raw: u8) -> (r: Vec<&'static str>)
        ensures
            r@ == sensor_names_where(raw, false),
    {
        Self::collect_names(raw, false)
    }

    fn collect_names(raw: u8, set: bool) -> (r: Vec<&'static str>)
        ensures
            r@ == sensor_names_where(raw, set),
    {
        let names = Self::NAMES;
        let mut out: Vec<&'static str> = Vec::new();
        let mut i: usize = 0;
        while i < 6
            invariant
                0 <= i <= 6,
                names@ == sensor_table(),
                out@ == sensor_names_prefix(raw, set, i as int),
            decreases 6 - i,
        {
            let (bit, name) = names[i];
            if (raw & bit != 0) == set {
                out.push(name);
            }
            i = i + 1;
        }
        out
    }
}

/// The `(bit, name)` table of the named sensor bits.
pub open spec fn sensor_table() -> Seq<(u8, &'static str)> {
    seq![(0x01u8, "BARO"), (0x02u8, "IMU"), (0x04u8, "MAG"), (0x08u8, "GPS"), (0x10u8, "LOG"), (0x20u8, "BATT")]
}

/// Names among the first `n` table entries whose bit in `raw` is set
/// (`set`) or clear (`!set`), in table order.
pub open spec fn sensor_names_prefix(raw: u8, set: bool, n: int) -> Seq<&'static str>
    decreases n,
{
    if n <= 0 {
        Seq::empty()
    } else {
        let rest = sensor_names_prefix(raw, set, n - 1);
        let (bit, name) = sensor_table()[n - 1];
        if (raw & bit != 0) == set {
            rest.push(name)
        } else {
            rest
        }
    }
}

/// Names of the named bits of `raw` that are set (`set`) or clear (`!set`).
pub open spec fn sensor_names_where(raw: u8, set: bool) -> Seq<&'static str> {
    sensor_names_prefix(raw, set, 6)
}

/// The six sensor names, in table order.
pub open spec fn sensor_name_list() -> Seq<&'static str> {
    sensor_table().map_values(|p: (u8, &'static str)| p.1)
}

proof fn lemma_names_prefix_partition(raw: u8, n: int)
    requires
        0 <= n <= 6,
    ensures
        sensor_names_prefix(raw, true, n).to_multiset().add(sensor_names_prefix(raw, false, n).to_multiset())
            =~= sensor_name_list().take(n).to_multiset(),
    decreases n,
{
    broadcast use vstd::seq_lib::group_to_multiset_ensures, vstd::multiset::group_multiset_axioms;

    if n == 0 {
        assert(sensor_name_list().take(0) =~= Seq::<&'static str>::empty());
        assert(Seq::<&'static str>::empty().to_multiset() =~= vstd::multiset::Multiset::empty());
    } else {
        lemma_names_prefix_partition(raw, n - 1);
        assert(sensor_name_list().take(n) =~= sensor_name_list().take(n - 1).push(sensor_table()[n - 1].1));
    }
}

/// `present` and `missing` partition the named sensors: together they
/// hold each of the six names exactly once, and nothing else (CHG has no
/// name and never appears).
pub proof fn lemma_present_missing_partition(raw: u8)
    ensures
        sensor_names_where(raw, true).to_multiset().add(sensor_names_where(raw, false).to_multiset())
            == sensor_name_list().to_multiset(),
        sensor_name_list().no_duplicates(),
        sensor_name_list() == seq!["BARO", "IMU", "MAG", "GPS", "LOG", "BATT"],
{
    lemma_names_prefix_partition(raw, 6);
    assert(sensor_name_list().take(6) =~= sensor_name_list());
    assert(sensor_name_list() =~= seq!["BARO", "IMU", "MAG", "GPS", "LOG", "BATT"]);
    reveal_strlit("BARO");
    reveal_strlit("IMU");
    reveal_strlit("MAG");
    reveal_strlit("GPS");
    reveal_strlit("LOG");
    reveal_strlit("BATT");
    let l = sensor_name_list();
    assert(l[0]@[0] == 'B' && l[1]@[0] == 'I' && l[2]@[0] == 'M' && l[3]@[0] == 'G' && l[4]@[0] == 'L'
        && l[5]@[0] == 'B' && l[0]@.len() == 4 && l[5]@.len() == 4 && l[0]@[1] == 'A' && l[5]@[1] == 'A'
        && l[0]@[2] == 'R' && l[5]@[2] == 'T');
    assert(l[0]@ != l[1]@ && l[0]@ != l[2]@ && l[0]@ != l[3]@ && l[0]@ != l[4]@ && l[0]@ != l[5]@);
    assert(l[1]@ != l[2]@ && l[1]@ != l[3]@ && l[1]@ != l[4]@ && l[1]@ != l[5]@);
    assert(l[2]@ != l[3]@ && l[2]@ != l[4]@ && l[2]@ != l[5]@);
    assert(l[3]@ != l[4]@ && l[3]@ != l[5]@);
    assert(l[4]@ != l[5]@);
}

// --- GPS flags -----------------------------------------------------------------

/// bit 0 = fix, bits 1-5 = satellite count (saturating at 31).
pub open spec fn gps_flags_value(has_fix: bool, satellites: u8) -> u8 {
    ((if has_fix { 1int } else { 0int }) + 2 * (if satellites > 31 { 31int } else { satellites as int })) as u8
}

pub fn encode_gps_flags(has_fix: bool, satellites: u8) -> (r: u8)
    ensures
        r == gps_flags_value(has_fix, satellites),
{
    let fix: u8 = if has_fix { 1 } else { 0 };
    let sats: u8 = if satellites < 31 { satellites } else { 31 };
    let r = fix | (sats << 1);
    assert(fix <= 1 && sats <= 31 ==> fix | (sats << 1) == fix + 2 * sats) by (bit_vector);
    r
}

pub fn decode_gps_flags(raw: u8) -> (r: (bool, u8))
    ensures
        r == (raw % 2 == 1, (raw / 2) % 32),
{
    let r = (raw & 0x01 != 0, (raw >> 1) & 0x1F);
    assert((raw & 0x01 != 0) == (raw % 2 == 1)) by (bit_vector);
    assert((raw >> 1) & 0x1F == (raw / 2) % 32) by (bit_vector);
    r
}

/// Decoding encoded GPS flags gives back the fix bit and the satellite
/// count, saturated at 31.
pub proof fn lemma_gps_flags_round_trip(has_fix: bool, satellites: u8)
    ensures
        ({
            let raw = gps_flags_value(has_fix, satellites);
            &&& (raw % 2 == 1) == has_fix
            &&& (raw / 2) % 32 == (if satellites > 31 { 31 } else { satellites })
        }),
{
}


// --- Telemetry: rocket -> handheld -------------------------------------------
//
//  offset  field        type     units on wire
//   0      magic        u8       0xA5
//   1      pkt_type     u8       0x01
//   2      counter      u16      packets since boot, wraps
//   4      uptime_ms    u32      ms since boot
//   8      state        u8       State::*
//   9      lat          f32      degrees (IEEE-754 bits)
//  13      lon          f32      degrees (IEEE-754 bits)
//  17      alt_baro     i16      meters AGL
//  19      speed        i16      cm/s, vertical, + is up
//  21      temp         i16      deci-degrees C
//  23      accel x,y,z  i16*3    milli-g
//  29      gyro x,y,z   i16*3    deci-degrees/s
//  35      batt         u8       (volts - 3.0) * 100
//  36      gps_flags    u8       bit0 = fix, bits 1-5 = sat count
//  37      flight_count u8       stored flights available
//  38      sensors      u8       Sensor::* bitfield
//  39      fw_version   u8       rocket firmware build counter (0 = unset)

/// Inputs of [`pack_telemetry`], in wire units.
#[derive(Debug, Clone, Copy, PartialEq, Eq)]
pub struct TelemetryInput {
    pub counter: u16,
    pub uptime_ms: u32,
    pub state: u8,
    /// IEEE-754 bits of the latitude in degrees.
    pub lat_bits: u32,
    /// IEEE-754 bits of the longitude in degrees.
    pub lon_bits: u32,
    /// Meters above the ground reference.
    pub alt_baro_m: i16,
    /// Vertical speed in cm/s, + is up.
    pub speed_cms: i16,
    /// Temperature in tenths of a degree C.
    pub temp_dc: i16,
    /// Acceleration per axis in milli-g.
    pub accel_mg: [i16; 3],
    /// Rotation rate per axis in tenths of a degree per second.
    pub gyro_ddps: [i16; 3],
    /// Battery byte: (volts - 3.0) * 100.
    pub batt: u8,
    pub has_fix: bool,
    pub satellites: u8,
    pub flight_count: u8,
    pub sensors: u8,
    pub fw_version: u8,
}

/// A decoded telemetry frame, in wire units.
#[derive(Debug, Clone, Copy, PartialEq, Eq)]
pub struct Telemetry {
    pub counter: u16,
    pub uptime_ms: u32,
    pub state: u8,
    pub lat_bits: u32,
    pub lon_bits: u32,
    pub alt_baro_m: i16,
    pub speed_cms: i16,
    pub temp_dc: i16,
    pub accel_mg: [i16; 3],
    pub gyro_ddps: [i16; 3],
    pub batt: u8,
    pub has_fix: bool,
    pub satellites: u8,
    pub flight_count: u8,
    pub sensors: u8,
    pub fw_version: u8,
}

impl Telemetry {
    pub fn state_name(&self) -> (r: &'static str)
        ensures
            r == state_name(self.state),
    {
        State::name(self.state)
    }
}

/// The 40 bytes [`pack_telemetry`] produces.
pub open spec fn telemetry_frame(t: TelemetryInput) -> Seq<u8> {
    seq![
        MAGIC,
        PKT_TELEMETRY,
        u16_byte(t.counter, 0),
        u16_byte(t.counter, 1),
        u32_byte(t.uptime_ms, 0),
        u32_byte(t.uptime_ms, 1),
        u32_byte(t.uptime_ms, 2),
        u32_byte(t.uptime_ms, 3),
        t.state,
        u32_byte(t.lat_bits, 0),
        u32_byte(t.lat_bits, 1),
        u32_byte(t.lat_bits, 2),
        u32_byte(t.lat_bits, 3),
        u32_byte(t.lon_bits, 0),
        u32_byte(t.lon_bits, 1),
        u32_byte(t.lon_bits, 2),
        u32_byte(t.lon_bits, 3),
        i16_byte(t.alt_baro_m, 0),
        i16_byte(t.alt_baro_m, 1),
        i16_byte(t.speed_cms, 0),
        i16_byte(t.speed_cms, 1),
        i16_byte(t.temp_dc, 0),
        i16_byte(t.temp_dc, 1),
        i16_byte(t.accel_mg[0], 0),
        i16_byte(t.accel_mg[0], 1),
        i16_byte(t.accel_mg[1], 0),
        i16_byte(t.accel_mg[1], 1),
        i16_byte(t.accel_mg[2], 0),
        i16_byte(t.accel_mg[2], 1),
        i16_byte(t.gyro_ddps[0], 0),
        i16_byte(t.gyro_ddps[0], 1),
        i16_byte(t.gyro_ddps[1], 0),
        i16_byte(t.gyro_ddps[1], 1),
        i16_byte(t.gyro_ddps[2], 0),
        i16_byte(t.gyro_ddps[2], 1),
        t.batt,
        gps_flags_value(t.has_fix, t.satellites),
        t.flight_count,
        t.sensors,
        t.fw_version,
    ]
}

/// Whether [`unpack_telemetry`] accepts `s`.
pub open spec fn telemetry_valid(s: Seq<u8>) -> bool {
    &&& s.len() == TELEMETRY_SIZE
    &&& s[0] == MAGIC
    &&& s[1] == PKT_TELEMETRY
}

/// The fields of a telemetry frame `s`, read at their wire offsets.
pub open spec fn telemetry_fields(s: Seq<u8>) -> Telemetry {
    Telemetry {
        counter: get_u16(s, 2),
        uptime_ms: get_u32(s, 4),
        state: s[8],
        lat_bits: get_u32(s, 9),
        lon_bits: get_u32(s, 13),
        alt_baro_m: get_i16(s, 17),
        speed_cms: get_i16(s, 19),
        temp_dc: get_i16(s, 21),
        accel_mg: [get_i16(s, 23), get_i16(s, 25), get_i16(s, 27)],
        gyro_ddps: [get_i16(s, 29), get_i16(s, 31), get_i16(s, 33)],
        batt: s[35],
        has_fix: s[36] % 2 == 1,
        satellites: (s[36] / 2) % 32,
        flight_count: s[37],
        sensors: s[38],
        fw_version: s[39],
    }
}

/// What a packed `t` decodes to: every field unchanged, except the
/// satellite count, which saturates at 31.
pub open spec fn telemetry_received(t: TelemetryInput) -> Telemetry {
    Telemetry {
        counter: t.counter,
        uptime_ms: t.uptime_ms,
        state: t.state,
        lat_bits: t.lat_bits,
        lon_bits: t.lon_bits,
        alt_baro_m: t.alt_baro_m,
        speed_cms: t.speed_cms,
        temp_dc: t.temp_dc,
        accel_mg: t.accel_mg,
        gyro_ddps: t.gyro_ddps,
        batt: t.batt,
        has_fix: t.has_fix,
        satellites: if t.satellites > 31 { 31 } else { t.satellites },
        flight_count: t.flight_count,
        sensors: t.sensors,
        fw_version: t.fw_version,
    }
}

/// Build a 40-byte telemetry frame.
pub fn pack_telemetry(input: &TelemetryInput) -> (r: [u8; TELEMETRY_SIZE])
    ensures
        r@ == telemetry_frame(*input),
{
    let (c0, c1) = u16_le_bytes(input.counter);
    let (u0, u1, u2, u3) = u32_le_bytes(input.uptime_ms);
    let (la0, la1, la2, la3) = u32_le_bytes(input.lat_bits);
    let (lo0, lo1, lo2, lo3) = u32_le_bytes(input.lon_bits);
    let (h0, h1) = i16_le_bytes(input.alt_baro_m);
    let (v0, v1) = i16_le_bytes(input.speed_cms);
    let (t0, t1) = i16_le_bytes(input.temp_dc);
    let (ax0, ax1) = i16_le_bytes(input.accel_mg[0]);
    let (ay0, ay1) = i16_le_bytes(input.accel_mg[1]);
    let (az0, az1) = i16_le_bytes(input.accel_mg[2]);
    let (gx0, gx1) = i16_le_bytes(input.gyro_ddps[0]);
    let (gy0, gy1) = i16_le_bytes(input.gyro_ddps[1]);
    let (gz0, gz1) = i16_le_bytes(input.gyro_ddps[2]);
    let flags = encode_gps_flags(input.has_fix, input.satellites);
    let r = [
        MAGIC,
        PKT_TELEMETRY,
        c0,
        c1,
        u0,
        u1,
        u2,
        u3,
        input.state,
        la0,
        la1,
        la2,
        la3,
        lo0,
        lo1,
        lo2,
        lo3,
        h0,
        h1,
        v0,
        v1,
        t0,
        t1,
        ax0,
        ax1,
        ay0,
        ay1,
        az0,
        az1,
        gx0,
        gx1,
        gy0,
        gy1,
        gz0,
        gz1,
        input.batt,
        flags,
        input.flight_count,
        input.sensors,
        input.fw_version,
    ];
    assert(r@ =~= telemetry_frame(*input));
    r
}

/// Decode a telemetry frame, or `None` if it isn't ours. Rejects on
/// length, magic byte, and packet type; never panics on bad input.
pub fn unpack_telemetry(data: &[u8]) -> (r: Option<Telemetry>)
    ensures
        r == (if telemetry_valid(data@) {
            Some(telemetry_fields(data@))
        } else {
            None
        }),
{
    if data.len() != TELEMETRY_SIZE {
        return None;
    }
    if data[0] != MAGIC || data[1] != PKT_TELEMETRY {
        return None;
    }
    let (has_fix, satellites) = decode_gps_flags(data[36]);
    let t = Telemetry {
        counter: read_u16(data, 2),
        uptime_ms: read_u32(data, 4),
        state: data[8],
        lat_bits: read_u32(data, 9),
        lon_bits: read_u32(data, 13),
        alt_baro_m: read_i16(data, 17),
        speed_cms: read_i16(data, 19),
        temp_dc: read_i16(data, 21),
        accel_mg: [read_i16(data, 23), read_i16(data, 25), read_i16(data, 27)],
        gyro_ddps: [read_i16(data, 29), read_i16(data, 31), read_i16(data, 33)],
        batt: data[35],
        has_fix,
        satellites,
        flight_count: data[37],
        sensors: data[38],
        fw_version: data[39],
    };
    Some(t)
}

/// A packed telemetry frame is accepted and decodes to the input, with
/// the satellite count saturated at 31.
pub proof fn lemma_telemetry_round_trip(t: TelemetryInput)
    ensures
        telemetry_valid(telemetry_frame(t)),
        telemetry_fields(telemetry_frame(t)) == telemetry_received(t),
{
    let f = telemetry_frame(t);
    lemma_gps_flags_round_trip(t.has_fix, t.satellites);
    lemma_le16_round_trip(t.counter);
    lemma_le32_round_trip(t.uptime_ms);
    lemma_le32_round_trip(t.lat_bits);
    lemma_le32_round_trip(t.lon_bits);
    lemma_le16s_round_trip(t.alt_baro_m);
    lemma_le16s_round_trip(t.speed_cms);
    lemma_le16s_round_trip(t.temp_dc);
    lemma_le16s_round_trip(t.accel_mg[0]);
    lemma_le16s_round_trip(t.accel_mg[1]);
    lemma_le16s_round_trip(t.accel_mg[2]);
    lemma_le16s_round_trip(t.gyro_ddps[0]);
    lemma_le16s_round_trip(t.gyro_ddps[1]);
    lemma_le16s_round_trip(t.gyro_ddps[2]);
    let r = telemetry_fields(f);
    let e = telemetry_received(t);
    assert(r.accel_mg =~= e.accel_mg);
    assert(r.gyro_ddps =~= e.gyro_ddps);
}


// --- Summary: rocket -> handheld (one flight's highlights) -------------------
//
//  offset  field          type   units on wire
//   0      magic          u8     0xA5
//   1      pkt_type       u8     0x03
//   2      flight_index   u8     which stored flight this answers
//   3      wait_ms        u32    ARM -> BOOST
//   7      boost_ms       u32    BOOST -> COAST
//  11      coast_ms       u32    COAST -> APOGEE
//  15      descent_ms     u32    DESCENT -> LANDED
//  19      arm_lat        f32    degrees, averaged fix at ARM
//  23      arm_lon        f32    degrees
//  27      landed_lat     f32    degrees, averaged fix locked in at RECOVER
//  31      landed_lon     f32    degrees
//  35      max_speed_mps  f32
//  39      max_alt_m      f32
//  43      temp_at_max_alt_c        f32
//  47      pressure_at_max_alt_hpa  f32
//  51      max_accel_g    f32
//  55      max_gyro_dps   f32
//  59      record_count   u32    log entries written this flight
//  63      arm_epoch_s    u32    unix seconds at ARM; 0 = no wall clock yet

/// One flight's highlights. Every `_bits` field is the IEEE-754 bit
/// pattern of an `f32` and travels on the wire unchanged.
#[derive(Debug, Clone, Copy, PartialEq, Eq)]
pub struct SummaryInput {
    pub flight_index: u8,
    pub wait_ms: u32,
    pub boost_ms: u32,
    pub coast_ms: u32,
    pub descent_ms: u32,
    pub arm_lat_bits: u32,
    pub arm_lon_bits: u32,
    pub landed_lat_bits: u32,
    pub landed_lon_bits: u32,
    pub max_speed_mps_bits: u32,
    pub max_alt_m_bits: u32,
    /// Temperature at the moment `max_alt_m` was recorded.
    pub temp_at_max_alt_c_bits: u32,
    /// Pressure at the moment `max_alt_m` was recorded.
    pub pressure_at_max_alt_hpa_bits: u32,
    pub max_accel_g_bits: u32,
    pub max_gyro_dps_bits: u32,
    pub record_count: u32,
    /// Unix seconds at ARM; `0` if the rocket had no wall clock yet.
    pub arm_epoch_s: u32,
}

pub type Summary = SummaryInput;

/// The 67 bytes [`pack_summary`] produces.
pub open spec fn summary_frame(t: SummaryInput) -> Seq<u8> {
    seq![
        MAGIC,
        PKT_SUMMARY,
        t.flight_index,
        u32_byte(t.wait_ms, 0),
        u32_byte(t.wait_ms, 1),
        u32_byte(t.wait_ms, 2),
        u32_byte(t.wait_ms, 3),
        u32_byte(t.boost_ms, 0),
        u32_byte(t.boost_ms, 1),
        u32_byte(t.boost_ms, 2),
        u32_byte(t.boost_ms, 3),
        u32_byte(t.coast_ms, 0),
        u32_byte(t.coast_ms, 1),
        u32_byte(t.coast_ms, 2),
        u32_byte(t.coast_ms, 3),
        u32_byte(t.descent_ms, 0),
        u32_byte(t.descent_ms, 1),
        u32_byte(t.descent_ms, 2),
        u32_byte(t.descent_ms, 3),
        u32_byte(t.arm_lat_bits, 0),
        u32_byte(t.arm_lat_bits, 1),
        u32_byte(t.arm_lat_bits, 2),
        u32_byte(t.arm_lat_bits, 3),
        u32_byte(t.arm_lon_bits, 0),
        u32_byte(t.arm_lon_bits, 1),
        u32_byte(t.arm_lon_bits, 2),
        u32_byte(t.arm_lon_bits, 3),
        u32_byte(t.landed_lat_bits, 0),
        u32_byte(t.landed_lat_bits, 1),
        u32_byte(t.landed_lat_bits, 2),
        u32_byte(t.landed_lat_bits, 3),
        u32_byte(t.landed_lon_bits, 0),
        u32_byte(t.landed_lon_bits, 1),
        u32_byte(t.landed_lon_bits, 2),
        u32_byte(t.landed_lon_bits, 3),
        u32_byte(t.max_speed_mps_bits, 0),
        u32_byte(t.max_speed_mps_bits, 1),
        u32_byte(t.max_speed_mps_bits, 2),
        u32_byte(t.max_speed_mps_bits, 3),
        u32_byte(t.max_alt_m_bits, 0),
        u32_byte(t.max_alt_m_bits, 1),
        u32_byte(t.max_alt_m_bits, 2),
        u32_byte(t.max_alt_m_bits, 3),
        u32_byte(t.temp_at_max_alt_c_bits, 0),
        u32_byte(t.temp_at_max_alt_c_bits, 1),
        u32_byte(t.temp_at_max_alt_c_bits, 2),
        u32_byte(t.temp_at_max_alt_c_bits, 3),
        u32_byte(t.pressure_at_max_alt_hpa_bits, 0),
        u32_byte(t.pressure_at_max_alt_hpa_bits, 1),
        u32_byte(t.pressure_at_max_alt_hpa_bits, 2),
        u32_byte(t.pressure_at_max_alt_hpa_bits, 3),
        u32_byte(t.max_accel_g_bits, 0),
        u32_byte(t.max_accel_g_bits, 1),
        u32_byte(t.max_accel_g_bits, 2),
        u32_byte(t.max_accel_g_bits, 3),
        u32_byte(t.max_gyro_dps_bits, 0),
        u32_byte(t.max_gyro_dps_bits, 1),
        u32_byte(t.max_gyro_dps_bits, 2),
        u32_byte(t.max_gyro_dps_bits, 3),
        u32_byte(t.record_count, 0),
        u32_byte(t.record_count, 1),
        u32_byte(t.record_count, 2),
        u32_byte(t.record_count, 3),
        u32_byte(t.arm_epoch_s, 0),
        u32_byte(t.arm_epoch_s, 1),
        u32_byte(t.arm_epoch_s, 2),
        u32_byte(t.arm_epoch_s, 3),
    ]
}

/// Whether [`unpack_summary`] accepts `s`.
pub open spec fn summary_valid(s: Seq<u8>) -> bool {
    &&& s.len() == SUMMARY_SIZE
    &&& s[0] == MAGIC
    &&& s[1] == PKT_SUMMARY
}

/// The fields of a summary frame `s`, read at their wire offsets.
pub open spec fn summary_fields(s: Seq<u8>) -> SummaryInput {
    SummaryInput {
        flight_index: s[2],
        wait_ms: get_u32(s, 3),
        boost_ms: get_u32(s, 7),
        coast_ms: get_u32(s, 11),
        descent_ms: get_u32(s, 15),
        arm_lat_bits: get_u32(s, 19),
        arm_lon_bits: get_u32(s, 23),
        landed_lat_bits: get_u32(s, 27),
        landed_lon_bits: get_u32(s, 31),
        max_speed_mps_bits: get_u32(s, 35),
        max_alt_m_bits: get_u32(s, 39),
        temp_at_max_alt_c_bits: get_u32(s, 43),
        pressure_at_max_alt_hpa_bits: get_u32(s, 47),
        max_accel_g_bits: get_u32(s, 51),
        max_gyro_dps_bits: get_u32(s, 55),
        record_count: get_u32(s, 59),
        arm_epoch_s: get_u32(s, 63),
    }
}

/// Build a 67-byte flight-summary frame.
pub fn pack_summary(input: &SummaryInput) -> (r: [u8; SUMMARY_SIZE])
    ensures
        r@ == summary_frame(*input),
{
    let (b0_0, b0_1, b0_2, b0_3) = u32_le_bytes(input.wait_ms);
    let (b1_0, b1_1, b1_2, b1_3) = u32_le_bytes(input.boost_ms);
    let (b2_0, b2_1, b2_2, b2_3) = u32_le_bytes(input.coast_ms);
    let (b3_0, b3_1, b3_2, b3_3) = u32_le_bytes(input.descent_ms);
    let (b4_0, b4_1, b4_2, b4_3) = u32_le_bytes(input.arm_lat_bits);
    let (b5_0, b5_1, b5_2, b5_3) = u32_le_bytes(input.arm_lon_bits);
    let (b6_0, b6_1, b6_2, b6_3) = u32_le_bytes(input.landed_lat_bits);
    let (b7_0, b7_1, b7_2, b7_3) = u32_le_bytes(input.landed_lon_bits);
    let (b8_0, b8_1, b8_2, b8_3) = u32_le_bytes(input.max_speed_mps_bits);
    let (b9_0, b9_1, b9_2, b9_3) = u32_le_bytes(input.max_alt_m_bits);
    let (b10_0, b10_1, b10_2, b10_3) = u32_le_bytes(input.temp_at_max_alt_c_bits);
    let (b11_0, b11_1, b11_2, b11_3) = u32_le_bytes(input.pressure_at_max_alt_hpa_bits);
    let (b12_0, b12_1, b12_2, b12_3) = u32_le_bytes(input.max_accel_g_bits);
    let (b13_0, b13_1, b13_2, b13_3) = u32_le_bytes(input.max_gyro_dps_bits);
    let (b14_0, b14_1, b14_2, b14_3) = u32_le_bytes(input.record_count);
    let (b15_0, b15_1, b15_2, b15_3) = u32_le_bytes(input.arm_epoch_s);
    let r = [
        MAGIC,
        PKT_SUMMARY,
        input.flight_index,
        b0_0,
        b0_1,
        b0_2,
        b0_3,
        b1_0,
        b1_1,
        b1_2,
        b1_3,
        b2_0,
        b2_1,
        b2_2,
        b2_3,
        b3_0,
        b3_1,
        b3_2,
        b3_3,
        b4_0,
        b4_1,
        b4_2,
        b4_3,
        b5_0,
        b5_1,
        b5_2,
        b5_3,
        b6_0,
        b6_1,
        b6_2,
        b6_3,
        b7_0,
        b7_1,
        b7_2,
        b7_3,
        b8_0,
        b8_1,
        b8_2,
        b8_3,
        b9_0,
        b9_1,
        b9_2,
        b9_3,
        b10_0,
        b10_1,
        b10_2,
        b10_3,
        b11_0,
        b11_1,
        b11_2,
        b11_3,
        b12_0,
        b12_1,
        b12_2,
        b12_3,
        b13_0,
        b13_1,
        b13_2,
        b13_3,
        b14_0,
        b14_1,
        b14_2,
        b14_3,
        b15_0,
        b15_1,
        b15_2,
        b15_3,
    ];
    assert(r@ =~= summary_frame(*input));
    r
}

/// Decode a flight-summary frame, or `None` if it isn't ours.
pub fn unpack_summary(data: &[u8]) -> (r: Option<Summary>)
    ensures
        r == (if summary_valid(data@) {
            Some(summary_fields(data@))
        } else {
            None
        }),
{
    if data.len() != SUMMARY_SIZE {
        return None;
    }
    if data[0] != MAGIC || data[1] != PKT_SUMMARY {
        return None;
    }
    Some(SummaryInput {
        flight_index: data[2],
        wait_ms: read_u32(data, 3),
        boost_ms: read_u32(data, 7),
        coast_ms: read_u32(data, 11),
        descent_ms: read_u32(data, 15),
        arm_lat_bits: read_u32(data, 19),
        arm_lon_bits: read_u32(data, 23),
        landed_lat_bits: read_u32(data, 27),
        landed_lon_bits: read_u32(data, 31),
        max_speed_mps_bits: read_u32(data, 35),
        max_alt_m_bits: read_u32(data, 39),
        temp_at_max_alt_c_bits: read_u32(data, 43),
        pressure_at_max_alt_hpa_bits: read_u32(data, 47),
        max_accel_g_bits: read_u32(data, 51),
        max_gyro_dps_bits: read_u32(data, 55),
        record_count: read_u32(data, 59),
        arm_epoch_s: read_u32(data, 63),
    })
}

/// A packed summary is accepted and decodes to exactly the input.
#[verifier::rlimit(40)]
pub proof fn lemma_summary_round_trip(t: SummaryInput)
    ensures
        summary_valid(summary_frame(t)),
        summary_fields(summary_frame(t)) == t,
{
    let f = summary_frame(t);
    assert(f.len() == 67);
    lemma_le32_round_trip(t.wait_ms);
    assert(get_u32(f, 3) == t.wait_ms);
    lemma_le32_round_trip(t.boost_ms);
    assert(get_u32(f, 7) == t.boost_ms);
    lemma_le32_round_trip(t.coast_ms);
    assert(get_u32(f, 11) == t.coast_ms);
    lemma_le32_round_trip(t.descent_ms);
    assert(get_u32(f, 15) == t.descent_ms);
    lemma_le32_round_trip(t.arm_lat_bits);
    assert(get_u32(f, 19) == t.arm_lat_bits);
    lemma_le32_round_trip(t.arm_lon_bits);
    assert(get_u32(f, 23) == t.arm_lon_bits);
    lemma_le32_round_trip(t.landed_lat_bits);
    assert(get_u32(f, 27) == t.landed_lat_bits);
    lemma_le32_round_trip(t.landed_lon_bits);
    assert(get_u32(f, 31) == t.landed_lon_bits);
    lemma_le32_round_trip(t.max_speed_mps_bits);
    assert(get_u32(f, 35) == t.max_speed_mps_bits);
    lemma_le32_round_trip(t.max_alt_m_bits);
    assert(get_u32(f, 39) == t.max_alt_m_bits);
    lemma_le32_round_trip(t.temp_at_max_alt_c_bits);
    assert(get_u32(f, 43) == t.temp_at_max_alt_c_bits);
    lemma_le32_round_trip(t.pressure_at_max_alt_hpa_bits);
    assert(get_u32(f, 47) == t.pressure_at_max_alt_hpa_bits);
    lemma_le32_round_trip(t.max_accel_g_bits);
    assert(get_u32(f, 51) == t.max_accel_g_bits);
    lemma_le32_round_trip(t.max_gyro_dps_bits);
    assert(get_u32(f, 55) == t.max_gyro_dps_bits);
    lemma_le32_round_trip(t.record_count);
    assert(get_u32(f, 59) == t.record_count);
    lemma_le32_round_trip(t.arm_epoch_s);
    assert(get_u32(f, 63) == t.arm_epoch_s);
}


// --- Flight index: rocket -> handheld (which flights are stored, and when) ---
//
//  offset  field        type   notes
//   0      magic        u8     0xA5
//   1      pkt_type     u8     0x04
//   2      count        u8     0..=MAX_STORED_FLIGHTS
//   3..    epoch_s[i]   u32    unix seconds at ARM, oldest first, `count` of them

/// magic + pkt_type + count.
pub const FLIGHT_INDEX_HEADER_SIZE: usize = 3;

/// Largest a flight-index frame can be: the header plus
/// `MAX_STORED_FLIGHTS` four-byte entries (3 + 32 * 4).
pub const FLIGHT_INDEX_MAX_SIZE: usize = 131;

#[verifier::external_type_specification]
#[verifier::external_body]
#[verifier::reject_recursive_types(T)]
pub struct ExHeaplessVec<T, const N: usize>(heapless::Vec<T, N>);

/// The bytes held by a flight-index frame buffer, in order.
pub uninterp spec fn frame_bytes(v: heapless::Vec<u8, 131>) -> Seq<u8>;

/// The timestamps held by a decoded flight index, in order.
pub uninterp spec fn index_entries(v: heapless::Vec<u32, 32>) -> Seq<u32>;

/// `heapless::Vec::new` on a frame buffer: an empty vector.
#[verifier::external_body]
fn frame_buf_new() -> (r: heapless::Vec<u8, 131>)
    ensures
        frame_bytes(r) == Seq::<u8>::empty(),
{
    heapless::Vec::new()
}

/// `heapless::Vec::push` on a frame buffer: appends the byte when fewer
/// than 131 are held, and otherwise hands it back and changes nothing.
#[verifier::external_body]
fn frame_buf_push(v: &mut heapless::Vec<u8, 131>, b: u8) -> (r: Result<(), u8>)
    ensures
        frame_bytes(*old(v)).len() < 131 ==> r is Ok && frame_bytes(*final(v)) == frame_bytes(*old(v)).push(b),
        frame_bytes(*old(v)).len() >= 131 ==> (r matches Err(e) && e == b) && frame_bytes(*final(v)) == frame_bytes(*old(v)),
{
    v.push(b)
}

/// `heapless::Vec::extend_from_slice` on a frame buffer: appends all of
/// `other` when it fits within 131 bytes, and otherwise changes nothing
/// and returns an error.
#[verifier::external_body]
fn frame_buf_extend(v: &mut heapless::Vec<u8, 131>, other: &[u8]) -> (r: Result<(), ()>)
    ensures
        frame_bytes(*old(v)).len() + other@.len() <= 131 ==> r is Ok && frame_bytes(*final(v)) == frame_bytes(*old(v)) + other@,
        frame_bytes(*old(v)).len() + other@.len() > 131 ==> r is Err && frame_bytes(*final(v)) == frame_bytes(*old(v)),
{
    v.extend_from_slice(other)
}

/// `heapless::Vec::new` on an index list: an empty vector.
#[verifier::external_body]
fn index_list_new() -> (r: heapless::Vec<u32, 32>)
    ensures
        index_entries(r) == Seq::<u32>::empty(),
{
    heapless::Vec::new()
}

/// `heapless::Vec::push` on an index list: appends the value when fewer
/// than 32 are held, and otherwise hands it back and changes nothing.
#[verifier::external_body]
fn index_list_push(v: &mut heapless::Vec<u32, 32>, x: u32) -> (r: Result<(), u32>)
    ensures
        index_entries(*old(v)).len() < 32 ==> r is Ok && index_entries(*final(v)) == index_entries(*old(v)).push(x),
        index_entries(*old(v)).len() >= 32 ==> (r matches Err(e) && e == x) && index_entries(*final(v)) == index_entries(*old(v)),
{
    v.push(x)
}

/// The little-endian encodings of `ts`, one after another.
pub open spec fn le32_all(ts: Seq<u32>) -> Seq<u8>
    decreases ts.len(),
{
    if ts.len() == 0 {
        Seq::empty()
    } else {
        le32_all(ts.drop_last()) + le32(ts.last())
    }
}

/// The frame [`pack_flight_index`] produces for exactly the entries `ts`.
pub open spec fn flight_index_frame(ts: Seq<u32>) -> Seq<u8> {
    seq![MAGIC, PKT_FLIGHT_INDEX, ts.len() as u8] + le32_all(ts)
}

/// Whether [`unpack_flight_index`] accepts `s`: header present, magic and
/// type right, and a count of at most `MAX_STORED_FLIGHTS` that matches
/// the payload length exactly.
pub open spec fn flight_index_valid(s: Seq<u8>) -> bool {
    &&& s.len() >= FLIGHT_INDEX_HEADER_SIZE
    &&& s[0] == MAGIC
    &&& s[1] == PKT_FLIGHT_INDEX
    &&& s[2] <= MAX_STORED_FLIGHTS
    &&& s.len() == FLIGHT_INDEX_HEADER_SIZE + 4 * s[2]
}

/// The timestamps of a flight-index frame, read at their wire offsets.
pub open spec fn flight_index_entries(s: Seq<u8>) -> Seq<u32> {
    Seq::new(s[2] as nat, |i: int| get_u32(s, 3 + 4 * i))
}

/// The first `MAX_STORED_FLIGHTS` entries of `ts` (all of them if fewer).
pub open spec fn capped_index(ts: Seq<u32>) -> Seq<u32> {
    if ts.len() <= MAX_STORED_FLIGHTS {
        ts
    } else {
        ts.take(MAX_STORED_FLIGHTS as int)
    }
}

proof fn lemma_le32_all_len(ts: Seq<u32>)
    ensures
        le32_all(ts).len() == 4 * ts.len(),
    decreases ts.len(),
{
    if ts.len() > 0 {
        lemma_le32_all_len(ts.drop_last());
    }
}

proof fn lemma_le32_all_push(ts: Seq<u32>, x: u32)
    ensures
        le32_all(ts.push(x)) == le32_all(ts) + le32(x),
{
    assert(ts.push(x).drop_last() =~= ts);
}

/// Entry `i` of `ts` sits little-endian at bytes `4i..4i + 4` of
/// `le32_all(ts)`.
proof fn lemma_le32_all_index(ts: Seq<u32>, i: int)
    requires
        0 <= i < ts.len(),
    ensures
        get_u32(le32_all(ts), 4 * i) == ts[i],
    decreases ts.len(),
{
    lemma_le32_all_len(ts);
    let last = ts.len() - 1;
    lemma_le32_all_len(ts.drop_last());
    lemma_le32_round_trip(ts.last());
    if i < last {
        lemma_le32_all_index(ts.drop_last(), i);
    }
}

/// `heapless::Vec::as_slice` on a frame buffer: the bytes it holds.
#[verifier::external_body]
fn frame_buf_as_slice(v: &heapless::Vec<u8, 131>) -> (r: &[u8])
    ensures
        r@ == frame_bytes(*v),
{
    v.as_slice()
}

/// `heapless::Vec::as_slice` on an index list: the timestamps it holds.
#[verifier::external_body]
fn index_list_as_slice(v: &heapless::Vec<u32, 32>) -> (r: &[u32])
    ensures
        r@ == index_entries(*v),
{
    v.as_slice()
}

/// The bytes of a packed flight-index frame, to send or to decode.
pub fn flight_index_bytes(frame: &heapless::Vec<u8, 131>) -> (r: &[u8])
    ensures
        r@ == frame_bytes(*frame),
{
    frame_buf_as_slice(frame)
}

/// The timestamps of a decoded flight index, oldest first.
pub fn flight_index_timestamps(index: &heapless::Vec<u32, 32>) -> (r: &[u32])
    ensures
        r@ == index_entries(*index),
{
    index_list_as_slice(index)
}

/// Build a flight-index frame from an ordered (oldest-first) list of ARM
/// unix-second timestamps. Silently caps at `MAX_STORED_FLIGHTS` entries.
pub fn pack_flight_index(timestamps: &[u32]) -> (r: heapless::Vec<u8, 131>)
    ensures
        frame_bytes(r) == flight_index_frame(capped_index(timestamps@)),
{
    let mut buf = frame_buf_new();
    let count: usize = if timestamps.len() < 32 {
        timestamps.len()
    } else {
        32
    };
    let _ = frame_buf_push(&mut buf, MAGIC);
    let _ = frame_buf_push(&mut buf, PKT_FLIGHT_INDEX);
    let _ = frame_buf_push(&mut buf, count as u8);
    let ghost ts = capped_index(timestamps@);
    assert(ts.len() == count);
    let mut i: usize = 0;
    while i < count
        invariant
            0 <= i <= count <= 32,
            count <= timestamps@.len(),
            ts == timestamps@.take(count as int),
            frame_bytes(buf) == seq![MAGIC, PKT_FLIGHT_INDEX, count as u8] + le32_all(ts.take(i as int)),
        decreases count - i,
    {
        proof {
            lemma_le32_all_len(ts.take(i as int));
        }
        let ts_i = timestamps[i];
        let (b0, b1, b2, b3) = u32_le_bytes(ts_i);
        let bytes = [b0, b1, b2, b3];
        let _ = frame_buf_extend(&mut buf, bytes.as_slice());
        proof {
            assert(ts.take(i + 1) =~= ts.take(i as int).push(ts[i as int]));
            lemma_le32_all_push(ts.take(i as int), ts[i as int]);
            assert(bytes@ =~= le32(ts_i));
        }
        i = i + 1;
    }
    assert(ts.take(count as int) =~= ts);
    buf
}

/// Decode a flight-index frame, or `None` if it isn't ours or its
/// declared `count` doesn't match the actual payload length.
pub fn unpack_flight_index(data: &[u8]) -> (r: Option<heapless::Vec<u32, 32>>)
    ensures
        r is Some == flight_index_valid(data@),
        r matches Some(v) ==> index_entries(v) == flight_index_entries(data@),
{
    if data.len() < FLIGHT_INDEX_HEADER_SIZE {
        return None;
    }
    if data[0] != MAGIC || data[1] != PKT_FLIGHT_INDEX {
        return None;
    }
    let count = data[2] as usize;
    if count > MAX_STORED_FLIGHTS as usize || data.len() != FLIGHT_INDEX_HEADER_SIZE + count * 4 {
        return None;
    }
    let mut out = index_list_new();
    let mut i: usize = 0;
    while i < count
        invariant
            0 <= i <= count <= 32,
            count == data@[2],
            data@.len() == 3 + 4 * count,
            index_entries(out) =~= flight_index_entries(data@).take(i as int),
        decreases count - i,
    {
        let off = FLIGHT_INDEX_HEADER_SIZE + i * 4;
        let ts = read_u32(data, off);
        let _ = index_list_push(&mut out, ts);
        i = i + 1;
    }
    Some(out)
}

/// A packed flight index is accepted and decodes to the capped list:
/// the frame is the 3-byte header (magic, type, count) and four bytes per
/// kept entry, and decoding its bytes gives back the first
/// `MAX_STORED_FLIGHTS` timestamps (all of them if fewer).
pub proof fn lemma_flight_index_round_trip(ts: Seq<u32>)
    ensures
        flight_index_valid(flight_index_frame(capped_index(ts))),
        flight_index_entries(flight_index_frame(capped_index(ts))) == capped_index(ts),
        flight_index_frame(capped_index(ts)).len() == 3 + 4 * capped_index(ts).len(),
        flight_index_frame(capped_index(ts)).take(3) == seq![MAGIC, PKT_FLIGHT_INDEX, capped_index(ts).len() as u8],
{
    let c = capped_index(ts);
    let f = flight_index_frame(c);
    lemma_le32_all_len(c);
    assert forall|i: int| 0 <= i < c.len() implies get_u32(f, 3 + 4 * i) == c[i] by {
        lemma_le32_all_index(c, i);
        let body = le32_all(c);
        assert(f[3 + 4 * i] == body[4 * i]);
        assert(f[3 + 4 * i + 1] == body[4 * i + 1]);
        assert(f[3 + 4 * i + 2] == body[4 * i + 2]);
        assert(f[3 + 4 * i + 3] == body[4 * i + 3]);
    }
    assert(flight_index_entries(f) =~= c);
    assert(f.take(3) =~= seq![MAGIC, PKT_FLIGHT_INDEX, c.len() as u8]);
}



/// No byte string is accepted as two kinds of frame: the packet-type
/// byte tells telemetry, commands, summaries and flight indexes apart.
pub proof fn lemma_frame_kinds_exclusive(s: Seq<u8>)
    ensures
        telemetry_valid(s) ==> !command_valid(s) && !summary_valid(s) && !flight_index_valid(s),
        command_valid(s) ==> !summary_valid(s) && !flight_index_valid(s),
        summary_valid(s) ==> !flight_index_valid(s),
{
}

} // verus!
