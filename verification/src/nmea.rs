//! NMEA 0183 handling for the PA1010D GPS over I2C, shared by both
//! boards. Three pieces, all pure logic:
//!
//! - [`NmeaLineReader`]: assembles raw I2C bytes into complete sentence
//!   lines. A bare `0x0A` that doesn't follow `0x0D` is filler (the module
//!   pads idle I2C reads with linefeeds), not a line terminator, and is
//!   dropped.
//! - [`parse_rmc`]: splits and validates a `$..RMC` sentence (checksum,
//!   sentence type, fix status, hemispheres, UTC date and time) and hands
//!   back the raw text of the numeric fields.
//! - [`unix_ms`]/[`from_unix_ms`]: UTC calendar time to and from
//!   milliseconds since the Unix epoch.
use vstd::prelude::*;
use vstd::string::StringSliceAdditionalSpecFns;
use vstd::utf8::encode_utf8;
use crate::civil::{
    days_to_civil, civil_from_days, civil_to_days, days_from_civil,
    lemma_civil_days_civil, lemma_days_civil_days, valid_date,
};

verus! {

broadcast use vstd::string::group_string_axioms;

// --- Calendar time -------------------------------------------------------------

/// A UTC calendar date + time-of-day, parsed from an NMEA sentence's
/// `hhmmss.sss` and `ddmmyy` fields.
#[derive(Debug, Clone, Copy, PartialEq, Eq, Structural)]
pub struct UtcDateTime {
    /// Full year: NMEA's two-digit `yy` is read as `2000 + yy`.
    pub year: u16,
    pub month: u8,
    pub day: u8,
    pub hour: u8,
    pub minute: u8,
    pub second: u8,
    pub millis: u16,
}

/// Milliseconds since the Unix epoch of `dt`.
pub open spec fn unix_ms_of(dt: UtcDateTime) -> int {
    civil_to_days(dt.year as int, dt.month as int, dt.day as int) * 86_400_000 + dt.hour * 3_600_000
        + dt.minute * 60_000 + dt.second * 1000 + dt.millis
}

/// The calendar time of `ms` milliseconds since the Unix epoch, with the
/// year kept to its low 16 bits.
pub open spec fn utc_of_unix_ms(ms: int) -> UtcDateTime {
    let days = ms / 86_400_000;
    let t = ms % 86_400_000;
    let (y, m, d) = days_to_civil(days);
    UtcDateTime {
        year: y as u16,
        month: m as u8,
        day: d as u8,
        hour: (t / 3_600_000) as u8,
        minute: ((t / 60_000) % 60) as u8,
        second: ((t / 1000) % 60) as u8,
        millis: (t % 1000) as u16,
    }
}

/// Whether `dt` names a real instant: a calendar date and a time of day
/// within range.
pub open spec fn valid_utc(dt: UtcDateTime) -> bool {
    &&& valid_date(dt.year as int, dt.month as int, dt.day as int)
    &&& dt.hour < 24
    &&& dt.minute < 60
    &&& dt.second < 60
    &&& dt.millis < 1000
}

/// Convert a UTC date+time to milliseconds since the Unix epoch.
pub fn unix_ms(dt: &UtcDateTime) -> (r: i64)
    ensures
        r == unix_ms_of(*dt),
        -200_000_000_000_000 <= r <= 3_000_000_000_000_000,
{
    let days = days_from_civil(dt.year as i32, dt.month as u32, dt.day as u32);
    days * 86_400_000 + dt.hour as i64 * 3_600_000 + dt.minute as i64 * 60_000 + dt.second as i64
        * 1000 + dt.millis as i64
}

/// Milliseconds since the Unix epoch back to a [`UtcDateTime`].
pub fn from_unix_ms(ms: i64) -> (r: UtcDateTime)
    ensures
        r == utc_of_unix_ms(ms as int),
{
    let days = ms.checked_div_euclid(86_400_000).unwrap();
    let ms_of_day = ms.checked_rem_euclid(86_400_000).unwrap();
    let (year, month, day) = civil_from_days(days);
    let hour = (ms_of_day / 3_600_000) as u8;
    let minute = ((ms_of_day / 60_000) % 60) as u8;
    let second = ((ms_of_day / 1000) % 60) as u8;
    let millis = (ms_of_day % 1000) as u16;
    UtcDateTime {
        year: year as u16,
        month: month as u8,
        day: day as u8,
        hour,
        minute,
        second,
        millis,
    }
}

/// [`from_unix_ms`] undoes [`unix_ms`] for every real instant.
#[verifier::spinoff_prover]
#[verifier::rlimit(50)]
pub proof fn lemma_from_unix_ms_inverts_unix_ms(dt: UtcDateTime)
    requires
        valid_utc(dt),
    ensures
        utc_of_unix_ms(unix_ms_of(dt)) == dt,
{
    let days = civil_to_days(dt.year as int, dt.month as int, dt.day as int);
    let t = dt.hour * 3_600_000 + dt.minute * 60_000 + dt.second * 1000 + dt.millis;
    let ms = days * 86_400_000 + t;
    assert(0 <= t < 86_400_000);
    vstd::arithmetic::div_mod::lemma_fundamental_div_mod_converse(ms, 86_400_000, days, t);
    lemma_civil_days_civil(dt.year as int, dt.month as int, dt.day as int);
    let r = utc_of_unix_ms(ms);
    assert(r.year == dt.year);
    assert(r.hour == dt.hour);
    assert(r.minute == dt.minute);
    assert(r.second == dt.second);
    assert(r.millis == dt.millis);
}

/// [`unix_ms`] undoes [`from_unix_ms`] whenever the year fits in 16 bits
/// (years 0 to 65535).
#[verifier::spinoff_prover]
#[verifier::rlimit(50)]
pub proof fn lemma_unix_ms_inverts_from_unix_ms(ms: int)
    requires
        0 <= days_to_civil(ms / 86_400_000).0 <= 65535,
    ensures
        unix_ms_of(utc_of_unix_ms(ms)) == ms,
{
    let days = ms / 86_400_000;
    let t = ms % 86_400_000;
    lemma_days_civil_days(days);
    let (y, m, d) = days_to_civil(days);
    crate::civil::lemma_days_to_civil_ranges(days);
    vstd::arithmetic::div_mod::lemma_fundamental_div_mod(ms, 86_400_000);
}


// --- Text helpers ---------------------------------------------------------------

/// The characters of `s`, in order.
fn chars_of(s: &str) -> (r: Vec<char>)
    ensures
        r@ == s@,
{
    let mut out: Vec<char> = Vec::new();
    for c in it: s.chars()
        invariant
            it.seq() == s@,
            out@ == it.seq().take(it.index() as int),
    {
        proof {
            assert(it.seq().take(it.index() + 1) =~= out@.push(c));
        }
        out.push(c);
    }
    assert(out@ =~= s@);
    out
}

/// The text of `v[lo..hi]`.
fn string_of(v: &Vec<char>, lo: usize, hi: usize) -> (r: String)
    requires
        lo <= hi <= v@.len(),
    ensures
        r@ == v@.subrange(lo as int, hi as int),
{
    let mut s = String::new();
    let mut i = lo;
    while i < hi
        invariant
            lo <= i <= hi <= v@.len(),
            s@ == v@.subrange(lo as int, i as int),
        decreases hi - i,
    {
        string_push(&mut s, v[i]);
        assert(s@ =~= v@.subrange(lo as int, i + 1));
        i = i + 1;
    }
    s
}

/// `String::push`: appends one character.
#[verifier::external_body]
pub(crate) fn string_push(s: &mut String, c: char)
    ensures
        final(s)@ == old(s)@.push(c),
{
    s.push(c)
}

/// Whether `c` has the Unicode White_Space property, as
/// `char::is_whitespace` tells.
fn char_is_whitespace(c: char) -> (r: bool)
    ensures
        r == is_white_space(c),
{
    let u = c as u32;
    (0x9 <= u && u <= 0xd) || u == 0x20 || u == 0x85 || u == 0xa0 || u == 0x1680 || (0x2000 <= u && u <= 0x200a)
        || u == 0x2028 || u == 0x2029 || u == 0x202f || u == 0x205f || u == 0x3000
}

/// The characters with the Unicode White_Space property.
pub open spec fn is_white_space(c: char) -> bool {
    ||| '\u{9}' <= c <= '\u{d}'
    ||| c == ' '
    ||| c == '\u{85}'
    ||| c == '\u{a0}'
    ||| c == '\u{1680}'
    ||| '\u{2000}' <= c <= '\u{200a}'
    ||| c == '\u{2028}'
    ||| c == '\u{2029}'
    ||| c == '\u{202f}'
    ||| c == '\u{205f}'
    ||| c == '\u{3000}'
}

/// `s` without its leading whitespace.
pub open spec fn trim_start(s: Seq<char>) -> Seq<char>
    decreases s.len(),
{
    if s.len() > 0 && is_white_space(s[0]) {
        trim_start(s.drop_first())
    } else {
        s
    }
}

/// `s` without its trailing whitespace.
pub open spec fn trim_end(s: Seq<char>) -> Seq<char>
    decreases s.len(),
{
    if s.len() > 0 && is_white_space(s.last()) {
        trim_end(s.drop_last())
    } else {
        s
    }
}

/// `s` without leading and trailing whitespace, as `str::trim` gives it.
pub open spec fn trim(s: Seq<char>) -> Seq<char> {
    trim_end(trim_start(s))
}

/// Index of the first `c` in `s`, or `s.len()` if there is none.
pub open spec fn index_of(s: Seq<char>, c: char) -> int
    decreases s.len(),
{
    if s.len() == 0 {
        0
    } else if s[0] == c {
        0
    } else {
        1 + index_of(s.drop_first(), c)
    }
}

/// The pieces of `s` between occurrences of `c`, as `str::split` gives
/// them (always at least one piece).
pub open spec fn split_on(s: Seq<char>, c: char) -> Seq<Seq<char>>
    decreases s.len(),
{
    let i = index_of(s, c);
    if i >= s.len() {
        seq![s]
    } else {
        proof {
            lemma_index_of_bound(s, c);
        }
        seq![s.take(i)] + split_on(s.skip(i + 1), c)
    }
}

proof fn lemma_index_of(s: Seq<char>, c: char, i: int)
    requires
        0 <= i <= s.len(),
        forall|j: int| 0 <= j < i ==> s[j] != c,
        i == s.len() || s[i] == c,
    ensures
        index_of(s, c) == i,
    decreases s.len(),
{
    if s.len() > 0 && i > 0 {
        lemma_index_of(s.drop_first(), c, i - 1);
    }
}

pub proof fn lemma_index_of_bound(s: Seq<char>, c: char)
    ensures
        0 <= index_of(s, c) <= s.len(),
        index_of(s, c) < s.len() ==> s[index_of(s, c)] == c,
        forall|j: int| 0 <= j < index_of(s, c) ==> s[j] != c,
    decreases s.len(),
{
    if s.len() > 0 && s[0] != c {
        lemma_index_of_bound(s.drop_first(), c);
        assert forall|j: int| 0 <= j < index_of(s, c) implies s[j] != c by {
            if j > 0 {
                assert(s[j] == s.drop_first()[j - 1]);
            }
        }
    }
}

/// Index of the first `c` in `v[lo..hi]`, or `hi` if there is none.
fn find_char(v: &Vec<char>, lo: usize, hi: usize, c: char) -> (r: usize)
    requires
        lo <= hi <= v@.len(),
    ensures
        r == lo + index_of(v@.subrange(lo as int, hi as int), c),
{
    let mut i = lo;
    while i < hi
        invariant
            lo <= i <= hi <= v@.len(),
            forall|j: int| lo <= j < i ==> v@[j] != c,
        ensures
            lo <= i <= hi,
            forall|j: int| lo <= j < i ==> v@[j] != c,
            i == hi || v@[i as int] == c,
        decreases hi - i,
    {
        if v[i] == c {
            break;
        }
        i = i + 1;
    }
    proof {
        let s = v@.subrange(lo as int, hi as int);
        lemma_index_of(s, c, i - lo);
    }
    i
}

proof fn lemma_trim_start_skip(s: Seq<char>, i: int)
    requires
        0 <= i <= s.len(),
        forall|j: int| 0 <= j < i ==> is_white_space(s[j]),
    ensures
        trim_start(s) == trim_start(s.skip(i)),
    decreases i,
{
    if i > 0 {
        assert(s.skip(1) =~= s.drop_first());
        lemma_trim_start_skip(s.drop_first(), i - 1);
        assert(s.drop_first().skip(i - 1) =~= s.skip(i));
    } else {
        assert(s.skip(0) =~= s);
    }
}

proof fn lemma_trim_end_take(s: Seq<char>, i: int)
    requires
        0 <= i <= s.len(),
        forall|j: int| i <= j < s.len() ==> is_white_space(s[j]),
    ensures
        trim_end(s) == trim_end(s.take(i)),
    decreases s.len() - i,
{
    if i < s.len() {
        lemma_trim_end_take(s.drop_last(), i);
        assert(s.drop_last().take(i) =~= s.take(i));
    } else {
        assert(s.take(i) =~= s);
    }
}

/// The bounds of `v[lo..hi]` with surrounding whitespace removed.
fn trim_bounds(v: &Vec<char>, lo: usize, hi: usize) -> (r: (usize, usize))
    requires
        lo <= hi <= v@.len(),
    ensures
        lo <= r.0 <= r.1 <= hi,
        v@.subrange(r.0 as int, r.1 as int) == trim(v@.subrange(lo as int, hi as int)),
{
    let ghost s = v@.subrange(lo as int, hi as int);
    let mut a = lo;
    while a < hi
        invariant
            lo <= a <= hi <= v@.len(),
            s == v@.subrange(lo as int, hi as int),
            forall|j: int| lo <= j < a ==> is_white_space(v@[j]),
        ensures
            lo <= a <= hi,
            forall|j: int| lo <= j < a ==> is_white_space(v@[j]),
            a < hi ==> !is_white_space(v@[a as int]),
        decreases hi - a,
    {
        if !char_is_whitespace(v[a]) {
            break;
        }
        a = a + 1;
    }
    proof {
        lemma_trim_start_skip(s, a - lo);
        assert(s.skip(a - lo) =~= v@.subrange(a as int, hi as int));
    }
    let ghost t = v@.subrange(a as int, hi as int);
    assert(trim_start(s) == t) by {
        if a < hi {
            assert(!is_white_space(t[0]));
        }
    }
    let mut b = hi;
    while b > a
        invariant
            lo <= a <= b <= hi <= v@.len(),
            t == v@.subrange(a as int, hi as int),
            forall|j: int| b <= j < hi ==> is_white_space(v@[j]),
        ensures
            a <= b <= hi,
            forall|j: int| b <= j < hi ==> is_white_space(v@[j]),
            b > a ==> !is_white_space(v@[b - 1]),
        decreases b - a,
    {
        if !char_is_whitespace(v[b - 1]) {
            break;
        }
        b = b - 1;
    }
    proof {
        lemma_trim_end_take(t, b - a);
        assert(t.take(b - a) =~= v@.subrange(a as int, b as int));
        let u = v@.subrange(a as int, b as int);
        if b > a {
            assert(!is_white_space(u.last()));
        }
    }
    (a, b)
}

// --- Number fields ----------------------------------------------------------------

/// Value of `c` as a digit in base `radix` (at most 36).
pub open spec fn digit_value(c: char, radix: int) -> Option<int> {
    let d = if '0' <= c <= '9' {
        c as int - '0' as int
    } else if 'a' <= c <= 'z' {
        c as int - 'a' as int + 10
    } else if 'A' <= c <= 'Z' {
        c as int - 'A' as int + 10
    } else {
        36
    };
    if d < radix {
        Some(d)
    } else {
        None
    }
}

/// Value of the digit string `s` in base `radix`, if every character is
/// a digit.
pub open spec fn digits_value(s: Seq<char>, radix: int) -> Option<int>
    decreases s.len(),
{
    if s.len() == 0 {
        Some(0)
    } else {
        match (digits_value(s.drop_last(), radix), digit_value(s.last(), radix)) {
            (Some(v), Some(d)) => Some(v * radix + d),
            _ => None,
        }
    }
}

/// Rust's unsigned `from_str_radix`: an optional `+`, then at least one
/// digit, with a value of at most `max`.
pub open spec fn parse_unsigned(s: Seq<char>, radix: int, max: int) -> Option<int> {
    let digits = if s.len() > 0 && s[0] == '+' {
        s.drop_first()
    } else {
        s
    };
    if digits.len() == 0 {
        None
    } else {
        match digits_value(digits, radix) {
            Some(v) => if v <= max {
                Some(v)
            } else {
                None
            },
            None => None,
        }
    }
}

proof fn lemma_digits_value_grows(s: Seq<char>, radix: int, k: int)
    requires
        2 <= radix <= 36,
        0 <= k <= s.len(),
        digits_value(s, radix) is Some,
    ensures
        digits_value(s.take(k), radix) is Some,
        digits_value(s.take(k), radix).unwrap() <= digits_value(s, radix).unwrap(),
        digits_value(s.take(k), radix).unwrap() >= 0,
    decreases s.len(),
{
    if k < s.len() {
        lemma_digits_value_grows(s.drop_last(), radix, k);
        assert(s.drop_last().take(k) =~= s.take(k));
        let v = digits_value(s.drop_last(), radix).unwrap();
        assert(v * radix >= v) by (nonlinear_arith)
            requires
                v >= 0,
                radix >= 2,
        ;
    } else {
        assert(s.take(k) =~= s);
        if s.len() > 0 {
            lemma_digits_value_grows(s.drop_last(), radix, s.len() - 1);
            let v = digits_value(s.drop_last(), radix).unwrap();
            assert(v * radix >= 0) by (nonlinear_arith)
                requires
                    v >= 0,
                    radix >= 2,
            ;
        }
    }
}

/// [`parse_unsigned`] of `v[lo..hi]`.
fn parse_unsigned_exec(v: &Vec<char>, lo: usize, hi: usize, radix: u32, max: u32) -> (r: Option<u32>)
    requires
        lo <= hi <= v@.len(),
        2 <= radix <= 36,
    ensures
        r matches Some(x) ==> parse_unsigned(v@.subrange(lo as int, hi as int), radix as int, max as int) == Some(x as int),
        r is None ==> parse_unsigned(v@.subrange(lo as int, hi as int), radix as int, max as int) is None,
{
    let ghost s = v@.subrange(lo as int, hi as int);
    let start = if lo < hi && v[lo] == '+' {
        lo + 1
    } else {
        lo
    };
    let ghost digits = v@.subrange(start as int, hi as int);
    assert(digits =~= (if s.len() > 0 && s[0] == '+' { s.drop_first() } else { s }));
    if start == hi {
        return None;
    }
    let mut acc: u64 = 0;
    let mut i = start;
    while i < hi
        invariant
            start <= i <= hi <= v@.len(),
            lo <= start,
            2 <= radix <= 36,
            digits == v@.subrange(start as int, hi as int),
            s == v@.subrange(lo as int, hi as int),
            digits == (if s.len() > 0 && s[0] == '+' { s.drop_first() } else { s }),
            digits.len() > 0,
            digits_value(digits.take(i - start), radix as int) == Some(acc as int),
            acc <= max,
        decreases hi - i,
    {
        let c = v[i];
        let d: u32 = if '0' <= c && c <= '9' {
            (c as u32) - ('0' as u32)
        } else if 'a' <= c && c <= 'z' {
            (c as u32) - ('a' as u32) + 10
        } else if 'A' <= c && c <= 'Z' {
            (c as u32) - ('A' as u32) + 10
        } else {
            36
        };
        proof {
            assert(digits.take(i + 1 - start).drop_last() =~= digits.take(i - start));
            assert(digits.take(i + 1 - start).last() == c);
            if d < radix {
                assert(digit_value(c, radix as int) == Some(d as int));
            } else {
                assert(digit_value(c, radix as int) is None);
            }
        }
        if d >= radix {
            proof {
                assert(digits_value(digits.take(i + 1 - start), radix as int) is None);
                if digits_value(digits, radix as int) is Some {
                    lemma_digits_value_grows(digits, radix as int, i + 1 - start);
                }
            }
            return None;
        }
        assert(acc * (radix as u64) <= 0xFFFF_FFFFu64 * 36) by (nonlinear_arith)
            requires
                acc <= 0xFFFF_FFFFu64,
                radix <= 36,
        ;
        let next: u64 = acc * (radix as u64) + d as u64;
        if next > max as u64 {
            proof {
                if digits_value(digits, radix as int) is Some {
                    lemma_digits_value_grows(digits, radix as int, i + 1 - start);
                }
            }
            return None;
        }
        acc = next;
        i = i + 1;
    }
    assert(digits.take(hi - start) =~= digits);
    Some(acc as u32)
}

/// `10` to the power `k`.
pub open spec fn pow10(k: nat) -> nat
    decreases k,
{
    if k == 0 {
        1
    } else {
        10 * pow10((k - 1) as nat)
    }
}

proof fn lemma_pow10_monotone(a: nat, b: nat)
    requires
        a <= b,
    ensures
        pow10(a) <= pow10(b),
        pow10(a) >= 1,
    decreases b,
{
    if b > 0 {
        if a < b {
            lemma_pow10_monotone(a, (b - 1) as nat);
        } else {
            lemma_pow10_monotone((b - 1) as nat, (b - 1) as nat);
        }
    }
}

proof fn lemma_pow10_add3(k: nat)
    ensures
        pow10(k + 3) == 1000 * pow10(k),
    decreases k,
{
    if k > 0 {
        lemma_pow10_add3((k - 1) as nat);
    }
    assert(pow10(3) == 1000) by {
        reveal_with_fuel(pow10, 4);
    }
}

/// A decimal digit string of length `n` is worth less than `10^n`.
proof fn lemma_digits_value_below_pow10(s: Seq<char>)
    requires
        digits_value(s, 10) is Some,
    ensures
        0 <= digits_value(s, 10).unwrap() < pow10(s.len()),
    decreases s.len(),
{
    if s.len() > 0 {
        lemma_digits_value_below_pow10(s.drop_last());
        let v = digits_value(s.drop_last(), 10).unwrap();
        let d = digit_value(s.last(), 10).unwrap();
        let p = pow10((s.len() - 1) as nat);
        assert(v * 10 + d < 10 * p) by (nonlinear_arith)
            requires
                0 <= v < p,
                0 <= d < 10,
        ;
    }
}

/// Milliseconds given by the part of an NMEA time field after
/// `hhmmss`: a `.` and the fraction digits, scaled to three places
/// (extra places are cut off). No fraction, or a lone `.`, is 0;
/// `None` when the fraction is not a `u32`.
pub open spec fn millis_of(frac: Seq<char>) -> Option<int> {
    if frac.len() > 1 && frac[0] == '.' {
        let digits = frac.drop_first();
        match parse_unsigned(digits, 10, 0xFFFF_FFFF) {
            Some(v) => Some(
                if digits.len() == 1 {
                    v * 100
                } else if digits.len() == 2 {
                    v * 10
                } else {
                    v / (pow10((digits.len() - 3) as nat) as int)
                },
            ),
            None => None,
        }
    } else {
        Some(0)
    }
}

/// The UTC instant given by NMEA's `hhmmss[.sss]` time field `t` and
/// `ddmmyy` date field `d`, the year read as `2000 + yy`. `None` when
/// the time field is shorter than six characters, the date field is not
/// exactly six, or a part is not a number. Values are not range-checked.
pub open spec fn utc_from_fields(t: Seq<char>, d: Seq<char>) -> Option<UtcDateTime> {
    if t.len() < 6 || d.len() != 6 {
        None
    } else {
        let hour = parse_unsigned(t.subrange(0, 2), 10, 255);
        let minute = parse_unsigned(t.subrange(2, 4), 10, 255);
        let second = parse_unsigned(t.subrange(4, 6), 10, 255);
        let millis = millis_of(t.skip(6));
        let day = parse_unsigned(d.subrange(0, 2), 10, 255);
        let month = parse_unsigned(d.subrange(2, 4), 10, 255);
        let year = parse_unsigned(d.subrange(4, 6), 10, 65535);
        if hour is Some && minute is Some && second is Some && millis is Some && day is Some
            && month is Some && year is Some {
            Some(
                UtcDateTime {
                    year: (2000 + year.unwrap()) as u16,
                    month: month.unwrap() as u8,
                    day: day.unwrap() as u8,
                    hour: hour.unwrap() as u8,
                    minute: minute.unwrap() as u8,
                    second: second.unwrap() as u8,
                    millis: millis.unwrap() as u16,
                },
            )
        } else {
            None
        }
    }
}

/// A parsed number field is below `10` to the power of its length.
proof fn lemma_parse_unsigned_below_pow10(s: Seq<char>, max: int)
    requires
        parse_unsigned(s, 10, max) is Some,
    ensures
        0 <= parse_unsigned(s, 10, max).unwrap() < pow10(s.len()),
{
    let digits = if s.len() > 0 && s[0] == '+' {
        s.drop_first()
    } else {
        s
    };
    lemma_digits_value_below_pow10(digits);
    lemma_pow10_monotone(digits.len(), s.len());
}

/// [`millis_of`] of `v[lo..hi]`, which is always below 1000.
fn millis_exec(v: &Vec<char>, lo: usize, hi: usize) -> (r: Option<u16>)
    requires
        lo <= hi <= v@.len(),
    ensures
        r matches Some(x) ==> millis_of(v@.subrange(lo as int, hi as int)) == Some(x as int),
        r is None ==> millis_of(v@.subrange(lo as int, hi as int)) is None,
        r matches Some(x) ==> x < 1000,
{
    let ghost frac = v@.subrange(lo as int, hi as int);
    if !(hi - lo > 1 && v[lo] == '.') {
        return Some(0);
    }
    let ghost digits = frac.drop_first();
    assert(digits =~= v@.subrange(lo + 1, hi as int));
    let value = match parse_unsigned_exec(v, lo + 1, hi, 10, 0xFFFF_FFFF) {
        Some(x) => x,
        None => {
            return None;
        },
    };
    let n = hi - lo - 1;
    proof {
        lemma_parse_unsigned_below_pow10(digits, 0xFFFF_FFFF);
    }
    if n == 1 {
        assert(pow10(1) == 10) by {
            reveal_with_fuel(pow10, 2);
        }
        Some((value * 100) as u16)
    } else if n == 2 {
        assert(pow10(2) == 100) by {
            reveal_with_fuel(pow10, 3);
        }
        Some((value * 10) as u16)
    } else {
        let k = n - 3;
        proof {
            lemma_pow10_add3(k as nat);
        }
        if k >= 10 {
            proof {
                lemma_pow10_monotone(10, k as nat);
                assert(pow10(10) == 10_000_000_000) by {
                    reveal_with_fuel(pow10, 11);
                }
                vstd::arithmetic::div_mod::lemma_basic_div(value as int, pow10(k as nat) as int);
            }
            return Some(0);
        }
        let mut p: u64 = 1;
        let mut j: usize = 0;
        while j < k
            invariant
                j <= k < 10,
                p == pow10(j as nat),
            decreases k - j,
        {
            proof {
                lemma_pow10_monotone((j + 1) as nat, 9);
                assert(pow10(9) == 1_000_000_000) by {
                    reveal_with_fuel(pow10, 10);
                }
            }
            p = p * 10;
            j = j + 1;
        }
        let q = (value as u64) / p;
        assert(q < 1000) by (nonlinear_arith)
            requires
                value < 1000 * p,
                p >= 1,
                q == (value as u64) / p,
        ;
        Some(q as u16)
    }
}

/// [`utc_from_fields`] of the time field `v[tlo..thi]` and the date field
/// `v[dlo..dhi]`.
fn utc_exec(v: &Vec<char>, tlo: usize, thi: usize, dlo: usize, dhi: usize) -> (r: Option<UtcDateTime>)
    requires
        tlo <= thi <= v@.len(),
        dlo <= dhi <= v@.len(),
    ensures
        r == utc_from_fields(v@.subrange(tlo as int, thi as int), v@.subrange(dlo as int, dhi as int)),
{
    let ghost t = v@.subrange(tlo as int, thi as int);
    let ghost d = v@.subrange(dlo as int, dhi as int);
    if thi - tlo < 6 || dhi - dlo != 6 {
        return None;
    }
    assert(t.subrange(0, 2) =~= v@.subrange(tlo as int, tlo + 2));
    assert(t.subrange(2, 4) =~= v@.subrange(tlo + 2, tlo + 4));
    assert(t.subrange(4, 6) =~= v@.subrange(tlo + 4, tlo + 6));
    assert(t.skip(6) =~= v@.subrange(tlo + 6, thi as int));
    assert(d.subrange(0, 2) =~= v@.subrange(dlo as int, dlo + 2));
    assert(d.subrange(2, 4) =~= v@.subrange(dlo + 2, dlo + 4));
    assert(d.subrange(4, 6) =~= v@.subrange(dlo + 4, dlo + 6));
    let hour = parse_unsigned_exec(v, tlo, tlo + 2, 10, 255);
    let minute = parse_unsigned_exec(v, tlo + 2, tlo + 4, 10, 255);
    let second = parse_unsigned_exec(v, tlo + 4, tlo + 6, 10, 255);
    let millis = millis_exec(v, tlo + 6, thi);
    let day = parse_unsigned_exec(v, dlo, dlo + 2, 10, 255);
    let month = parse_unsigned_exec(v, dlo + 2, dlo + 4, 10, 255);
    let year = parse_unsigned_exec(v, dlo + 4, dlo + 6, 10, 65535);
    match (hour, minute, second, millis, day, month, year) {
        (Some(hour), Some(minute), Some(second), Some(millis), Some(day), Some(month), Some(year)) => {
            proof {
                lemma_parse_unsigned_below_pow10(d.subrange(4, 6), 65535);
                assert(pow10(2) == 100) by {
                    reveal_with_fuel(pow10, 3);
                }
            }
            Some(
                UtcDateTime {
                    year: 2000 + year as u16,
                    month: month as u8,
                    day: day as u8,
                    hour: hour as u8,
                    minute: minute as u8,
                    second: second as u8,
                    millis,
                },
            )
        },
        _ => None,
    }
}

/// Parse NMEA's `hhmmss.sss` time field and `ddmmyy` date field into a
/// [`UtcDateTime`]: `None` if either field is missing, too short, or not
/// made of numbers. The fraction of a second may have any number of
/// digits; it is scaled to milliseconds.
pub fn parse_utc_datetime(time_field: &str, date_field: &str) -> (r: Option<UtcDateTime>)
    ensures
        r == utc_from_fields(time_field@, date_field@),
{
    let t = chars_of(time_field);
    let d = chars_of(date_field);
    let mut v = t.clone();
    let ghost tv = v@;
    let mut dd = d.clone();
    v.append(&mut dd);
    assert(v@.subrange(0, t@.len() as int) =~= time_field@);
    assert(v@.subrange(t@.len() as int, v@.len() as int) =~= date_field@);
    utc_exec(&v, 0, t.len(), t.len(), v.len())
}


// --- RMC sentences -------------------------------------------------------------

/// A latitude or longitude as an RMC sentence carries it: the unsigned
/// `ddmm.mmmm` (or `dddmm.mmmm`) text, and whether its hemisphere (`S` or
/// `W`) makes it negative.
#[derive(Debug, Clone, PartialEq)]
pub struct RawCoordinate {
    pub digits: String,
    pub negative: bool,
}

/// The fields of a `$..RMC` sentence that passed its checks, the
/// numbers still as the sentence wrote them.
#[derive(Debug, Clone, PartialEq)]
pub struct RmcSentence {
    /// `true` for status `A`; `V` (no fix) and anything else is `false`.
    pub valid: bool,
    pub lat: RawCoordinate,
    pub lon: RawCoordinate,
    /// Speed over ground in knots, as written (may be blank).
    pub speed: String,
    /// Track angle in degrees true, as written; `None` when blank.
    pub track: Option<String>,
    /// UTC date and time, when both fields parse.
    pub utc: Option<UtcDateTime>,
}

/// What an [`RmcSentence`] holds, as character sequences.
pub struct RmcView {
    pub valid: bool,
    pub lat: (Seq<char>, bool),
    pub lon: (Seq<char>, bool),
    pub speed: Seq<char>,
    pub track: Option<Seq<char>>,
    pub utc: Option<UtcDateTime>,
}

impl View for RmcSentence {
    type V = RmcView;

    open spec fn view(&self) -> RmcView {
        RmcView {
            valid: self.valid,
            lat: (self.lat.digits@, self.lat.negative),
            lon: (self.lon.digits@, self.lon.negative),
            speed: self.speed@,
            track: match self.track {
                Some(t) => Some(t@),
                None => None,
            },
            utc: self.utc,
        }
    }
}

/// Whether hemisphere letter `h` makes a coordinate negative: `N`/`E`
/// no, `S`/`W` yes, anything else is not a hemisphere.
pub open spec fn hemisphere_sign(h: Seq<char>) -> Option<bool> {
    if h.len() == 1 && (h[0] == 'N' || h[0] == 'E') {
        Some(false)
    } else if h.len() == 1 && (h[0] == 'S' || h[0] == 'W') {
        Some(true)
    } else {
        None
    }
}

/// A coordinate from its text and hemisphere field: `None` when the text
/// is blank or the hemisphere is not one of `N`, `E`, `S`, `W`.
pub open spec fn coordinate_of(raw: Seq<char>, hemi: Seq<char>) -> Option<(Seq<char>, bool)> {
    if raw.len() == 0 {
        None
    } else {
        match hemisphere_sign(hemi) {
            Some(neg) => Some((raw, neg)),
            None => None,
        }
    }
}

/// Whether the talker+type field names an RMC sentence (`GPRMC`,
/// `GNRMC`, ...).
pub open spec fn is_rmc_type(t: Seq<char>) -> bool {
    t.len() >= 3 && t[t.len() - 3] == 'R' && t[t.len() - 2] == 'M' && t[t.len() - 1] == 'C'
}

/// The decoded fields of an RMC sentence body (the text between `$` and
/// `*`): `None` when it has fewer comma-separated fields than needed
/// (ten with the date field, nine without), the first does not end in
/// `RMC`, or a coordinate is blank or has no valid hemisphere. The UTC
/// time is only read with the date field.
pub open spec fn rmc_body_of(body: Seq<char>, with_date: bool) -> Option<RmcView> {
    let f = split_on(body, ',');
    if f.len() < (if with_date { 10int } else { 9int }) || !is_rmc_type(f[0]) {
        None
    } else {
        match (coordinate_of(f[3], f[4]), coordinate_of(f[5], f[6])) {
            (Some(lat), Some(lon)) => Some(
                RmcView {
                    valid: f[2].len() == 1 && f[2][0] == 'A',
                    lat,
                    lon,
                    speed: f[7],
                    track: if f[8].len() == 0 {
                        None
                    } else {
                        Some(f[8])
                    },
                    utc: if with_date {
                        utc_from_fields(f[1], f[9])
                    } else {
                        None
                    },
                },
            ),
            _ => None,
        }
    }
}

proof fn lemma_split_first_field(a: Seq<char>, tail: Seq<char>)
    requires
        !a.contains(','),
    ensures
        split_on(a + seq![','] + tail, ',') == seq![a] + split_on(tail, ','),
{
    let s = a + seq![','] + tail;
    assert forall|j: int| 0 <= j < a.len() implies s[j] != ',' by {
        assert(s[j] == a[j]);
        if a[j] == ',' {
            assert(a.contains(','));
        }
    }
    lemma_index_of(s, ',', a.len() as int);
    assert(s.take(a.len() as int) =~= a);
    assert(s.skip(a.len() as int + 1) =~= tail);
}

/// The talker ID in front of `RMC` does not matter (GPS-only `GP`,
/// multi-constellation `GN`, any other, or none): two bodies whose first
/// field is some comma-free prefix followed by `RMC`, and whose remaining
/// fields are the same, decode alike.
pub proof fn lemma_rmc_ignores_talker(p1: Seq<char>, p2: Seq<char>, tail: Seq<char>, with_date: bool)
    requires
        !p1.contains(','),
        !p2.contains(','),
    ensures
        rmc_body_of(p1 + seq!['R', 'M', 'C', ','] + tail, with_date) == rmc_body_of(
            p2 + seq!['R', 'M', 'C', ','] + tail,
            with_date,
        ),
{
    let t1 = p1 + seq!['R', 'M', 'C'];
    let t2 = p2 + seq!['R', 'M', 'C'];
    assert(!t1.contains(',')) by {
        if t1.contains(',') {
            let j = choose|j: int| 0 <= j < t1.len() && t1[j] == ',';
            if j < p1.len() {
                assert(p1[j] == t1[j]);
            }
        }
    }
    assert(!t2.contains(',')) by {
        if t2.contains(',') {
            let j = choose|j: int| 0 <= j < t2.len() && t2[j] == ',';
            if j < p2.len() {
                assert(p2[j] == t2[j]);
            }
        }
    }
    assert(p1 + seq!['R', 'M', 'C', ','] + tail =~= t1 + seq![','] + tail);
    assert(p2 + seq!['R', 'M', 'C', ','] + tail =~= t2 + seq![','] + tail);
    lemma_split_first_field(t1, tail);
    lemma_split_first_field(t2, tail);
    let f1 = split_on(t1 + seq![','] + tail, ',');
    let f2 = split_on(t2 + seq![','] + tail, ',');
    assert(is_rmc_type(t1) && is_rmc_type(t2));
    assert forall|k: int| 1 <= k < f1.len() implies f1[k] == f2[k] by {
        assert(f1[k] == split_on(tail, ',')[k - 1]);
        assert(f2[k] == split_on(tail, ',')[k - 1]);
    }
}

/// Every `..RMC` talker is accepted: a `GN` (multi-constellation)
/// sentence body decodes exactly as the same body from a `GP` (GPS-only)
/// talker.
pub proof fn lemma_rmc_gn_as_gp(tail: Seq<char>, with_date: bool)
    ensures
        rmc_body_of(seq!['G', 'N', 'R', 'M', 'C', ','] + tail, with_date) == rmc_body_of(
            seq!['G', 'P', 'R', 'M', 'C', ','] + tail,
            with_date,
        ),
{
    let gn = seq!['G', 'N'];
    let gp = seq!['G', 'P'];
    assert(!gn.contains(',')) by {
        if gn.contains(',') {
            let j = choose|j: int| 0 <= j < gn.len() && gn[j] == ',';
        }
    }
    assert(!gp.contains(',')) by {
        if gp.contains(',') {
            let j = choose|j: int| 0 <= j < gp.len() && gp[j] == ',';
        }
    }
    lemma_rmc_ignores_talker(gn, gp, tail, with_date);
    assert(gn + seq!['R', 'M', 'C', ','] + tail =~= seq!['G', 'N', 'R', 'M', 'C', ','] + tail);
    assert(gp + seq!['R', 'M', 'C', ','] + tail =~= seq!['G', 'P', 'R', 'M', 'C', ','] + tail);
}

/// The decoded fields of `sentence`, or `None` when, after trimming
/// surrounding whitespace, it does not start with `$`, has no `*`, the
/// text after the first `*` (trimmed) is not a hexadecimal byte equal to
/// the XOR of the UTF-8 bytes of the body between `$` and `*`, or the body
/// is not a usable RMC body ([`rmc_body_of`]).
pub open spec fn rmc_of(sentence: Seq<char>, with_date: bool) -> Option<RmcView> {
    let s = trim(sentence);
    if s.len() == 0 || s[0] != '$' {
        None
    } else {
        let rest = s.drop_first();
        let star = index_of(rest, '*');
        if star >= rest.len() {
            None
        } else {
            let body = rest.take(star);
            match parse_unsigned(trim(rest.skip(star + 1)), 16, 255) {
                None => None,
                Some(expected) => if xor_all(encode_utf8(body)) != expected {
                    None
                } else {
                    rmc_body_of(body, with_date)
                },
            }
        }
    }
}

proof fn lemma_split_on_nonempty(s: Seq<char>, c: char)
    ensures
        split_on(s, c).len() >= 1,
    decreases s.len(),
{
    lemma_index_of_bound(s, c);
    let i = index_of(s, c);
    if i < s.len() {
        lemma_split_on_nonempty(s.skip(i + 1), c);
    }
}

/// The bounds of the first `count` comma-separated fields of `v[lo..hi]`,
/// if it has that many.
fn field_bounds(v: &Vec<char>, lo: usize, hi: usize, count: usize) -> (r: Option<(Vec<usize>, Vec<usize>)>)
    requires
        lo <= hi <= v@.len(),
    ensures
        r is Some <==> split_on(v@.subrange(lo as int, hi as int), ',').len() >= count,
        r matches Some((st, en)) ==> {
            &&& st@.len() == count
            &&& en@.len() == count
            &&& forall|j: int|
                0 <= j < count ==> lo <= #[trigger] st@[j] <= en@[j] <= hi
                    && v@.subrange(st@[j] as int, en@[j] as int) == split_on(
                    v@.subrange(lo as int, hi as int),
                    ',',
                )[j]
        },
{
    let ghost whole = split_on(v@.subrange(lo as int, hi as int), ',');
    let mut st: Vec<usize> = Vec::new();
    let mut en: Vec<usize> = Vec::new();
    let ghost mut done: Seq<Seq<char>> = Seq::empty();
    let mut pos = lo;
    if count == 0 {
        proof {
            lemma_split_on_nonempty(v@.subrange(lo as int, hi as int), ',');
        }
        return Some((st, en));
    }
    assert(whole =~= done + split_on(v@.subrange(pos as int, hi as int), ','));
    loop
        invariant
            lo <= pos <= hi <= v@.len(),
            0 < count,
            st@.len() == done.len(),
            en@.len() == done.len(),
            done.len() < count,
            whole == split_on(v@.subrange(lo as int, hi as int), ','),
            whole == done + split_on(v@.subrange(pos as int, hi as int), ','),
            forall|j: int|
                0 <= j < done.len() ==> lo <= #[trigger] st@[j] <= en@[j] <= pos && v@.subrange(
                    st@[j] as int,
                    en@[j] as int,
                ) == done[j],
        decreases hi - pos,
    {
        let e = find_char(v, pos, hi, ',');
        let ghost rem = v@.subrange(pos as int, hi as int);
        proof {
            lemma_index_of_bound(rem, ',');
        }
        st.push(pos);
        en.push(e);
        if e < hi {
            proof {
                assert(rem.take(e - pos) =~= v@.subrange(pos as int, e as int));
                assert(rem.skip(e - pos + 1) =~= v@.subrange(e + 1, hi as int));
                let tail = split_on(v@.subrange(e + 1, hi as int), ',');
                assert(split_on(rem, ',') == seq![rem.take(e - pos)] + tail);
                assert(whole =~= done.push(v@.subrange(pos as int, e as int)) + tail);
                done = done.push(v@.subrange(pos as int, e as int));
            }
            if st.len() == count {
                proof {
                    lemma_split_on_nonempty(v@.subrange(e + 1, hi as int), ',');
                    assert forall|j: int| 0 <= j < count implies lo <= #[trigger] st@[j] <= en@[j]
                        <= hi && v@.subrange(st@[j] as int, en@[j] as int) == whole[j] by {
                        assert(whole[j] == done[j]);
                        if j < count - 1 {
                            assert(st@[j] == st@.drop_last()[j]);
                            assert(en@[j] == en@.drop_last()[j]);
                        }
                    }
                }
                return Some((st, en));
            }
            let ghost old_pos = pos;
            pos = e + 1;
            proof {
                assert forall|j: int| 0 <= j < done.len() implies lo <= #[trigger] st@[j] <= en@[j]
                    <= pos && v@.subrange(st@[j] as int, en@[j] as int) == done[j] by {
                    if j < done.len() - 1 {
                        assert(st@[j] == st@.drop_last()[j]);
                    } else {
                        assert(st@[j] == old_pos && en@[j] == e);
                    }
                }
            }
        } else {
            proof {
                assert(rem.take(e - pos) =~= rem);
                assert(split_on(rem, ',') == seq![rem]);
                assert(whole =~= done.push(rem));
                done = done.push(rem);
            }
            if st.len() == count {
                proof {
                    assert forall|j: int| 0 <= j < count implies lo <= #[trigger] st@[j] <= en@[j]
                        <= hi && v@.subrange(st@[j] as int, en@[j] as int) == whole[j] by {
                        assert(whole[j] == done[j]);
                    }
                }
                return Some((st, en));
            }
            return None;
        }
    }
}

/// [`hemisphere_sign`] of `v[lo..hi]`.
fn hemisphere_exec(v: &Vec<char>, lo: usize, hi: usize) -> (r: Option<bool>)
    requires
        lo <= hi <= v@.len(),
    ensures
        r == hemisphere_sign(v@.subrange(lo as int, hi as int)),
{
    if hi - lo != 1 {
        return None;
    }
    let c = v[lo];
    if c == 'N' || c == 'E' {
        Some(false)
    } else if c == 'S' || c == 'W' {
        Some(true)
    } else {
        None
    }
}

/// [`coordinate_of`] of the text `v[lo..hi]` and hemisphere `v[hlo..hhi]`.
fn coordinate_exec(v: &Vec<char>, lo: usize, hi: usize, hlo: usize, hhi: usize) -> (r: Option<RawCoordinate>)
    requires
        lo <= hi <= v@.len(),
        hlo <= hhi <= v@.len(),
    ensures
        r matches Some(c) ==> coordinate_of(v@.subrange(lo as int, hi as int), v@.subrange(hlo as int, hhi as int)) == Some((c.digits@, c.negative)),
        r is None ==> coordinate_of(v@.subrange(lo as int, hi as int), v@.subrange(hlo as int, hhi as int)) is None,
{
    if lo == hi {
        return None;
    }
    match hemisphere_exec(v, hlo, hhi) {
        Some(negative) => Some(RawCoordinate { digits: string_of(v, lo, hi), negative }),
        None => None,
    }
}

/// [`rmc_body_of`] of the body `v[lo..hi]`.
#[verifier::rlimit(30)]
fn rmc_body_exec(v: &Vec<char>, lo: usize, hi: usize, with_date: bool) -> (r: Option<RmcSentence>)
    requires
        lo <= hi <= v@.len(),
    ensures
        r matches Some(x) ==> rmc_body_of(v@.subrange(lo as int, hi as int), with_date) == Some(x@),
        r is None ==> rmc_body_of(v@.subrange(lo as int, hi as int), with_date) is None,
{
    let ghost body = v@.subrange(lo as int, hi as int);
    let needed: usize = if with_date {
        10
    } else {
        9
    };
    let (st, en) = match field_bounds(v, lo, hi, needed) {
        Some(bounds) => bounds,
        None => {
            return None;
        },
    };
    let ghost f = split_on(body, ',');
    assert(f[0] == v@.subrange(st@[0] as int, en@[0] as int));
    let s0 = st[0];
    let e0 = en[0];
    if e0 - s0 < 3 || v[e0 - 3] != 'R' || v[e0 - 2] != 'M' || v[e0 - 1] != 'C' {
        return None;
    }
    assert(f[3] == v@.subrange(st@[3] as int, en@[3] as int));
    assert(f[4] == v@.subrange(st@[4] as int, en@[4] as int));
    assert(f[5] == v@.subrange(st@[5] as int, en@[5] as int));
    assert(f[6] == v@.subrange(st@[6] as int, en@[6] as int));
    let lat = match coordinate_exec(v, st[3], en[3], st[4], en[4]) {
        Some(c) => c,
        None => {
            return None;
        },
    };
    let lon = match coordinate_exec(v, st[5], en[5], st[6], en[6]) {
        Some(c) => c,
        None => {
            return None;
        },
    };
    assert(f[1] == v@.subrange(st@[1] as int, en@[1] as int));
    assert(f[2] == v@.subrange(st@[2] as int, en@[2] as int));
    assert(f[7] == v@.subrange(st@[7] as int, en@[7] as int));
    assert(f[8] == v@.subrange(st@[8] as int, en@[8] as int));
    let valid = en[2] - st[2] == 1 && v[st[2]] == 'A';
    let speed = string_of(v, st[7], en[7]);
    let track = if st[8] == en[8] {
        None
    } else {
        Some(string_of(v, st[8], en[8]))
    };
    let utc = if with_date {
        assert(f[9] == v@.subrange(st@[9] as int, en@[9] as int));
        utc_exec(v, st[1], en[1], st[9], en[9])
    } else {
        None
    };
    Some(RmcSentence { valid, lat, lon, speed, track, utc })
}

/// [`rmc_of`] of `sentence`: the checks on the frame of the sentence,
/// then its body.
pub(crate) fn decode_rmc(sentence: &str, with_date: bool) -> (r: Option<RmcSentence>)
    ensures
        r matches Some(x) ==> rmc_of(sentence@, with_date) == Some(x@),
        r is None ==> rmc_of(sentence@, with_date) is None,
{
    let v = chars_of(sentence);
    let (a, b) = trim_bounds(&v, 0, v.len());
    let ghost t = v@.subrange(a as int, b as int);
    assert(v@.subrange(0, v@.len() as int) =~= sentence@);
    if a == b || v[a] != '$' {
        return None;
    }
    let ghost rest = t.drop_first();
    assert(rest =~= v@.subrange(a + 1, b as int));
    let star = find_char(&v, a + 1, b, '*');
    if star == b {
        return None;
    }
    proof {
        lemma_index_of_bound(rest, '*');
    }
    let ghost body = rest.take(star - a - 1);
    assert(body =~= v@.subrange(a + 1, star as int));
    assert(rest.skip(star - a) =~= v@.subrange(star + 1, b as int));
    let (ha, hb) = trim_bounds(&v, star + 1, b);
    let expected = match parse_unsigned_exec(&v, ha, hb, 16, 255) {
        Some(e) => e,
        None => {
            return None;
        },
    };
    let body_str = sentence.substring_char(a + 1, star);
    if checksum(body_str) as u32 != expected {
        return None;
    }
    rmc_body_exec(&v, a + 1, star, with_date)
}

/// Decode one `$..RMC` sentence, its date field included (see [`rmc_of`]
/// for exactly when it is `None`): anything that is not an RMC sentence,
/// fails its checksum, or lacks a field this needs gives `None`, "nothing
/// usable this line".
pub fn parse_rmc(sentence: &str) -> (r: Option<RmcSentence>)
    ensures
        r matches Some(x) ==> rmc_of(sentence@, true) == Some(x@),
        r is None ==> rmc_of(sentence@, true) is None,
{
    decode_rmc(sentence, true)
}

// --- Line assembly ---------------------------------------------------------------

/// UTF-8 encoding of a concatenation is the concatenation of encodings.
proof fn lemma_encode_utf8_concat(a: Seq<char>, b: Seq<char>)
    ensures
        encode_utf8(a + b) == encode_utf8(a) + encode_utf8(b),
    decreases a.len(),
{
    if a.len() > 0 {
        lemma_encode_utf8_concat(a.drop_first(), b);
        assert((a + b).drop_first() =~= a.drop_first() + b);
        assert(encode_utf8(a + b) =~= encode_utf8(a) + encode_utf8(b));
    } else {
        assert(a + b =~= b);
        assert(encode_utf8(a) =~= Seq::<u8>::empty());
        assert(encode_utf8(a) + encode_utf8(b) =~= encode_utf8(b));
    }
}

/// Number of UTF-8 bytes of the character `b as char`.
pub open spec fn byte_char_width(b: u8) -> nat {
    if b < 0x80 {
        1
    } else {
        2
    }
}

proof fn lemma_push_byte_char(s: Seq<char>, b: u8)
    ensures
        encode_utf8(s.push(b as char)).len() == encode_utf8(s).len() + byte_char_width(b),
{
    let c = b as char;
    lemma_encode_utf8_concat(s, seq![c]);
    assert(s.push(c) =~= s + seq![c]);
    assert(seq![c].drop_first() =~= Seq::<char>::empty());
    assert(encode_utf8(Seq::<char>::empty()) =~= Seq::<u8>::empty());
    assert((c as u32) == b);
}

/// Whether `byte` is a filler line feed: one that does not follow a
/// carriage return. Filler is neither stored nor counted as accepted.
pub open spec fn is_filler(last: u8, byte: u8) -> bool {
    byte == 0x0A && last != 0x0D
}

/// The line held after feeding `byte` to a reader holding `line`, whose
/// last accepted byte was `last`, that is (`discarding`) or is not
/// dropping the rest of an over-long line, with room for `cap` bytes.
pub open spec fn line_after(line: Seq<char>, last: u8, discarding: bool, byte: u8, cap: int) -> Seq<char> {
    if is_filler(last, byte) {
        line
    } else if byte == 0x0A || discarding {
        Seq::empty()
    } else if encode_utf8(line.push(byte as char)).len() > cap {
        Seq::empty()
    } else {
        line.push(byte as char)
    }
}

/// Whether the reader is dropping an over-long line after feeding
/// `byte`: from the byte that would overflow `cap` up to the next line
/// feed that follows a carriage return.
pub open spec fn discarding_after(line: Seq<char>, last: u8, discarding: bool, byte: u8, cap: int) -> bool {
    if is_filler(last, byte) {
        discarding
    } else if byte == 0x0A {
        false
    } else {
        discarding || encode_utf8(line.push(byte as char)).len() > cap
    }
}

/// The last accepted byte after feeding `byte`.
pub open spec fn last_after(last: u8, byte: u8) -> u8 {
    if is_filler(last, byte) {
        last
    } else {
        byte
    }
}

/// The sentence handed back when `byte` is fed: at a line feed that
/// follows a carriage return, the line without its trailing `\r`, unless
/// that is empty or the line was over-long and dropped.
pub open spec fn line_emitted(line: Seq<char>, last: u8, discarding: bool, byte: u8) -> Option<Seq<char>> {
    if byte == 0x0A && last == 0x0D && !discarding {
        let l = if line.len() > 0 && line.last() == '\r' {
            line.drop_last()
        } else {
            line
        };
        if l.len() == 0 {
            None
        } else {
            Some(l)
        }
    } else {
        None
    }
}

/// Assembles raw I2C bytes into complete NMEA sentence lines of at most
/// `N` bytes. A bare `0x0A` that does not follow `0x0D` is filler and is
/// dropped; a line that outgrows `N` bytes is dropped whole, and assembly
/// resynchronises on the next terminator.
pub struct NmeaLineReader<const N: usize> {
    line: Vec<char>,
    bytes: usize,
    last_byte: u8,
    discarding: bool,
}

impl<const N: usize> NmeaLineReader<N> {
    /// The characters of the line being assembled.
    pub closed spec fn line(&self) -> Seq<char> {
        self.line@
    }

    /// The last byte accepted (filler line feeds are not accepted).
    pub closed spec fn last_byte(&self) -> u8 {
        self.last_byte
    }

    /// Whether the rest of an over-long line is being dropped.
    pub closed spec fn discarding(&self) -> bool {
        self.discarding
    }

    /// The held line is at most `N` bytes long, its byte count is kept,
    /// and nothing is held while a line is being dropped.
    pub closed spec fn wf(&self) -> bool {
        &&& self.bytes == encode_utf8(self.line@).len()
        &&& self.bytes <= N
        &&& self.discarding ==> self.line@.len() == 0
    }

    /// An empty reader.
    pub fn new() -> (r: Self)
        ensures
            r.wf(),
            r.line() == Seq::<char>::empty(),
            r.last_byte() == 0,
            !r.discarding(),
    {
        let r = NmeaLineReader { line: Vec::new(), bytes: 0, last_byte: 0, discarding: false };
        assert(encode_utf8(r.line@) =~= Seq::<u8>::empty());
        r
    }

    /// Feed one raw byte from the GPS's I2C stream. Hands back the
    /// sentence text (`$...*XX`, without the `\r\n`) once a complete line
    /// has been assembled.
    pub fn feed(&mut self, byte: u8) -> (r: Option<String>)
        requires
            old(self).wf(),
        ensures
            final(self).wf(),
            final(self).line() == line_after(old(self).line(), old(self).last_byte(), old(self).discarding(), byte, N as int),
            final(self).last_byte() == last_after(old(self).last_byte(), byte),
            final(self).discarding() == discarding_after(old(self).line(), old(self).last_byte(), old(self).discarding(), byte, N as int),
            r matches Some(s) ==> line_emitted(old(self).line(), old(self).last_byte(), old(self).discarding(), byte) == Some(s@),
            r is None ==> line_emitted(old(self).line(), old(self).last_byte(), old(self).discarding(), byte) is None,
    {
        if byte == 0x0A && self.last_byte != 0x0D {
            return None;
        }
        self.last_byte = byte;
        if byte == 0x0A {
            if self.discarding {
                self.discarding = false;
                return None;
            }
            let n = self.line.len();
            if n > 0 && self.line[n - 1] == '\r' {
                proof {
                    lemma_push_byte_char(self.line@.drop_last(), 0x0D);
                    assert(self.line@.drop_last().push(0x0Du8 as char) =~= self.line@);
                }
                self.line.pop();
                self.bytes = self.bytes - 1;
            }
            let result = string_of(&self.line, 0, self.line.len());
            assert(self.line@.subrange(0, self.line@.len() as int) =~= self.line@);
            let empty = self.line.len() == 0;
            self.line.clear();
            self.bytes = 0;
            assert(encode_utf8(self.line@) =~= Seq::<u8>::empty());
            return if empty {
                None
            } else {
                Some(result)
            };
        }
        if self.discarding {
            return None;
        }
        let width: usize = if byte < 0x80 {
            1
        } else {
            2
        };
        proof {
            lemma_push_byte_char(self.line@, byte);
        }
        if width > N - self.bytes {
            self.line.clear();
            self.bytes = 0;
            self.discarding = true;
            assert(encode_utf8(self.line@) =~= Seq::<u8>::empty());
        } else {
            self.line.push(byte as char);
            self.bytes = self.bytes + width;
        }
        None
    }
}

/// Feeding `bytes` one at a time to a reader holding `line`, with last
/// accepted byte `last` and dropping flag `discarding`: the line, last
/// byte and dropping flag afterwards, and the sentences handed back, in
/// order.
pub open spec fn feed_all(line: Seq<char>, last: u8, discarding: bool, bytes: Seq<u8>, cap: int) -> (
    Seq<char>,
    u8,
    bool,
    Seq<Seq<char>>,
)
    decreases bytes.len(),
{
    if bytes.len() == 0 {
        (line, last, discarding, Seq::empty())
    } else {
        let (l, b, d, out) = feed_all(line, last, discarding, bytes.drop_last(), cap);
        let x = bytes.last();
        let emitted = match line_emitted(l, b, d, x) {
            Some(s) => seq![s],
            None => Seq::empty(),
        };
        (line_after(l, b, d, x, cap), last_after(b, x), discarding_after(l, b, d, x, cap), out + emitted)
    }
}

/// The characters `b as char` of the bytes `t`.
pub open spec fn chars_of_bytes(t: Seq<u8>) -> Seq<char> {
    t.map_values(|b: u8| b as char)
}

/// Whether `t` is sentence text: ASCII, with no carriage return or line
/// feed.
pub open spec fn is_line_text(t: Seq<u8>) -> bool {
    forall|i: int| 0 <= i < t.len() ==> #[trigger] t[i] < 0x80 && t[i] != 0x0A && t[i] != 0x0D
}

/// What feeding the first `k` bytes of sentence text leaves: the bytes
/// themselves while they fit in `cap`, else nothing and the dropping
/// flag raised.
pub open spec fn text_prefix_state(last: u8, t: Seq<u8>, k: int, cap: int) -> (Seq<char>, u8, bool, Seq<Seq<char>>) {
    (
        if k <= cap { chars_of_bytes(t.take(k)) } else { Seq::empty() },
        if k == 0 { last } else { t[k - 1] },
        k > cap,
        Seq::<Seq<char>>::empty(),
    )
}

proof fn lemma_feed_text_prefix(last: u8, t: Seq<u8>, k: int, cap: int)
    requires
        is_line_text(t),
        0 <= k <= t.len(),
        cap >= 0,
    ensures
        feed_all(Seq::empty(), last, false, t.take(k), cap) == text_prefix_state(last, t, k, cap),
        encode_utf8(chars_of_bytes(t.take(k))).len() == k,
    decreases k,
{
    if k == 0 {
        assert(t.take(0) =~= Seq::<u8>::empty());
        assert(chars_of_bytes(t.take(0)) =~= Seq::<char>::empty());
        assert(encode_utf8(Seq::<char>::empty()) =~= Seq::<u8>::empty());
    } else {
        lemma_feed_text_prefix(last, t, k - 1, cap);
        assert(t.take(k).drop_last() =~= t.take(k - 1));
        let x = t[k - 1];
        assert(t[k - 1] < 0x80 && t[k - 1] != 0x0A && t[k - 1] != 0x0D);
        let prev = chars_of_bytes(t.take(k - 1));
        lemma_push_byte_char(prev, x);
        assert(prev.push(x as char) =~= chars_of_bytes(t.take(k)));
        let e = Seq::<Seq<char>>::empty();
        assert(e + e =~= e);
        if k - 1 > cap {
        } else if k > cap {
            assert(encode_utf8(prev.push(x as char)).len() > cap);
        } else {
        }
    }
}

/// Feeding the bytes of a sentence (ASCII, no CR or LF, shorter than the
/// reader's capacity) followed by `\r\n` to a reader with an empty line
/// hands back exactly that sentence, once, and leaves the line empty
/// again, whatever byte came before.
pub proof fn lemma_line_round_trip(last: u8, t: Seq<u8>, cap: int)
    requires
        is_line_text(t),
        0 < t.len() < cap,
    ensures
        feed_all(Seq::empty(), last, false, t + seq![0x0Du8, 0x0Au8], cap) == (
            Seq::<char>::empty(),
            0x0Au8,
            false,
            seq![chars_of_bytes(t)],
        ),
{
    let bytes = t + seq![0x0Du8, 0x0Au8];
    lemma_feed_text_prefix(last, t, t.len() as int, cap);
    assert(t.take(t.len() as int) =~= t);
    assert(bytes.drop_last() =~= t.push(0x0Du8));
    assert(bytes.drop_last().drop_last() =~= t);
    let line = chars_of_bytes(t);
    lemma_push_byte_char(line, 0x0D);
    let with_cr = line.push(0x0Du8 as char);
    assert(with_cr.drop_last() =~= line);
    assert(with_cr.last() == '\r');
    let e = Seq::<Seq<char>>::empty();
    assert(e + e =~= e);
    assert(e + seq![line] =~= seq![line]);
    assert(feed_all(Seq::empty(), last, false, t, cap) == (line, t[t.len() - 1], false, e));
    let t1 = t.push(0x0Du8);
    assert(t1.drop_last() =~= t);
    assert(t1.last() == 0x0Du8);
    assert(line_after(line, t[t.len() - 1], false, 0x0Du8, cap) == with_cr);
    assert(feed_all(Seq::empty(), last, false, t1, cap) == (with_cr, 0x0Du8, false, e));
    assert(bytes.drop_last() == t1);
    assert(bytes.last() == 0x0Au8);
    assert(line_emitted(with_cr, 0x0Du8, false, 0x0Au8) == Some(line));
}

/// A sentence that does not fit the reader (its text and `\r` are more
/// than `cap` bytes) is dropped whole: feeding it with its `\r\n` to a
/// reader with an empty line hands back nothing, and the reader is ready
/// for the next line, whatever byte came before.
pub proof fn lemma_overlong_line_dropped(last: u8, t: Seq<u8>, cap: int)
    requires
        is_line_text(t),
        0 <= cap <= t.len(),
    ensures
        feed_all(Seq::empty(), last, false, t + seq![0x0Du8, 0x0Au8], cap) == (
            Seq::<char>::empty(),
            0x0Au8,
            false,
            Seq::<Seq<char>>::empty(),
        ),
{
    let bytes = t + seq![0x0Du8, 0x0Au8];
    lemma_feed_text_prefix(last, t, t.len() as int, cap);
    assert(t.take(t.len() as int) =~= t);
    assert(bytes.drop_last() =~= t.push(0x0Du8));
    let e = Seq::<Seq<char>>::empty();
    assert(e + e =~= e);
    let t1 = t.push(0x0Du8);
    assert(t1.drop_last() =~= t);
    assert(t1.last() == 0x0Du8);
    let st = feed_all(Seq::empty(), last, false, t, cap);
    let lb: u8 = if t.len() == 0 { last } else { t[t.len() - 1] };
    if t.len() == cap {
        let line = chars_of_bytes(t);
        assert(st == (line, lb, false, e));
        lemma_push_byte_char(line, 0x0D);
        assert(line_after(line, lb, false, 0x0Du8, cap) == Seq::<char>::empty());
        assert(discarding_after(line, lb, false, 0x0Du8, cap));
    } else {
        assert(st == (Seq::<char>::empty(), lb, true, e));
    }
    assert(feed_all(Seq::empty(), last, false, t1, cap) == (Seq::<char>::empty(), 0x0Du8, true, e));
    assert(bytes.drop_last() == t1);
    assert(bytes.last() == 0x0Au8);
}

// --- Checksums ---------------------------------------------------------------------

/// XOR of all of `b`.
pub open spec fn xor_all(b: Seq<u8>) -> u8
    decreases b.len(),
{
    if b.len() == 0 {
        0
    } else {
        xor_all(b.drop_last()) ^ b.last()
    }
}

proof fn lemma_xor_all_concat_bytes(a: Seq<u8>, b: Seq<u8>)
    ensures
        xor_all(a + b) == xor_all(a) ^ xor_all(b),
    decreases b.len(),
{
    if b.len() == 0 {
        assert(a + b =~= a);
        let x = xor_all(a);
        assert(x ^ 0u8 == x) by (bit_vector);
    } else {
        lemma_xor_all_concat_bytes(a, b.drop_last());
        assert((a + b).drop_last() =~= a + b.drop_last());
        assert((a + b).last() == b.last());
        let (x, y, z) = (xor_all(a), xor_all(b.drop_last()), b.last());
        assert((x ^ y) ^ z == x ^ (y ^ z)) by (bit_vector);
    }
}

/// The checksum of a concatenation is the XOR of the checksums of its
/// parts, and the empty body's checksum is 0: a checksum is the XOR of
/// every byte of the text.
pub proof fn lemma_checksum_concat(a: &str, b: &str, ab: &str)
    requires
        ab@ == a@ + b@,
    ensures
        xor_all(ab.spec_bytes()) == xor_all(a.spec_bytes()) ^ xor_all(b.spec_bytes()),
        xor_all(Seq::<u8>::empty()) == 0,
{
    lemma_encode_utf8_concat(a@, b@);
    lemma_xor_all_concat_bytes(a.spec_bytes(), b.spec_bytes());
}

/// XOR checksum of an NMEA sentence body (the bytes between `$` and `*`).
/// Used both to verify incoming sentences and to frame outgoing `PMTK*`
/// configuration commands.
pub fn checksum(body: &str) -> (r: u8)
    ensures
        r == xor_all(body.spec_bytes()),
{
    let bytes = body.as_bytes();
    let mut acc: u8 = 0;
    let mut i: usize = 0;
    while i < bytes.len()
        invariant
            0 <= i <= bytes@.len(),
            bytes@ == body.spec_bytes(),
            acc == xor_all(bytes@.take(i as int)),
        decreases bytes@.len() - i,
    {
        assert(bytes@.take(i + 1).drop_last() =~= bytes@.take(i as int));
        acc = acc ^ bytes[i];
        i = i + 1;
    }
    assert(bytes@.take(i as int) =~= bytes@);
    acc
}

/// Upper-case hexadecimal digit of `n` (0-15).
pub open spec fn hex_digit(n: u8) -> char {
    if n < 10 {
        (n + '0' as u8) as char
    } else {
        (n - 10 + 'A' as u8) as char
    }
}

fn hex_digit_exec(n: u8) -> (r: char)
    requires
        n < 16,
    ensures
        r == hex_digit(n),
{
    if n < 10 {
        (n + 48) as char
    } else {
        (n - 10 + 65) as char
    }
}

/// The text [`framed_command`] produces for `payload`.
pub open spec fn framed_command_text(payload: &str) -> Seq<char> {
    let cs = xor_all(payload.spec_bytes());
    seq!['$'] + payload@ + seq!['*', hex_digit(cs / 16), hex_digit(cs % 16), '\r', '\n']
}

/// Frame a raw PMTK payload (e.g. `"PMTK301,2"`) into the full command
/// text the chip expects: `"$PAYLOAD*XX\r\n"`, `XX` being the checksum in
/// upper-case hexadecimal.
pub fn framed_command(payload: &str) -> (r: String)
    ensures
        r@ == framed_command_text(payload),
{
    let cs = checksum(payload);
    let mut s = String::new();
    string_push(&mut s, '$');
    s.append(payload);
    string_push(&mut s, '*');
    string_push(&mut s, hex_digit_exec(cs / 16));
    string_push(&mut s, hex_digit_exec(cs % 16));
    string_push(&mut s, '\r');
    string_push(&mut s, '\n');
    assert(s@ =~= framed_command_text(payload));
    s
}

proof fn lemma_hex_digit_value(n: u8)
    requires
        n < 16,
    ensures
        digit_value(hex_digit(n), 16) == Some(n as int),
        !is_white_space(hex_digit(n)),
        hex_digit(n) != '+',
        hex_digit(n) != '*',
{
}

/// The same checksum both ways: the text [`framed_command`] produces for
/// a payload without `*` passes every check [`parse_rmc`] makes on an
/// incoming sentence (leading `$`, a `*`, the hexadecimal XOR of the
/// body, surrounding whitespace), so it decodes exactly as its payload
/// does as an RMC body.
pub proof fn lemma_framed_command_passes_checksum(payload: &str)
    requires
        !payload@.contains('*'),
    ensures
        rmc_of(framed_command_text(payload), true) == rmc_body_of(payload@, true),
        rmc_of(framed_command_text(payload), false) == rmc_body_of(payload@, false),
{
    let p = payload@;
    let cs = xor_all(payload.spec_bytes());
    let hi = hex_digit(cs / 16);
    let lo = hex_digit(cs % 16);
    lemma_hex_digit_value(cs / 16);
    lemma_hex_digit_value(cs % 16);
    let t = framed_command_text(payload);
    let core = seq!['$'] + p + seq!['*', hi, lo];
    assert(t =~= core + seq!['\r', '\n']);
    assert(t.len() == core.len() + 2);
    assert(is_white_space('\r') && is_white_space('\n'));
    assert forall|j: int| core.len() <= j < t.len() implies is_white_space(t[j]) by {
        if j == core.len() {
            assert(t[j] == '\r');
        } else {
            assert(t[j] == '\n');
        }
    }
    lemma_trim_end_take(t, core.len() as int);
    assert(t.take(core.len() as int) =~= core);
    assert(core.last() == lo);
    assert(trim_end(core) == core);
    assert(t[0] == '$');
    assert(!is_white_space('$'));
    assert(trim_start(t) == t);
    assert(trim(t) == core);
    let rest = core.drop_first();
    assert(rest =~= p + seq!['*', hi, lo]);
    assert forall|j: int| 0 <= j < p.len() implies rest[j] != '*' by {
        assert(rest[j] == p[j]);
        if p[j] == '*' {
            assert(p.contains('*'));
        }
    }
    assert(rest[p.len() as int] == '*');
    lemma_index_of(rest, '*', p.len() as int);
    assert(rest.take(p.len() as int) =~= p);
    let hex = rest.skip(p.len() as int + 1);
    assert(hex =~= seq![hi, lo]);
    assert(trim_start(hex) == hex);
    assert(hex.last() == lo);
    assert(trim_end(hex) == hex);
    assert(trim(hex) == hex);
    assert(hex.drop_last() =~= seq![hi]);
    assert(seq![hi].drop_last() =~= Seq::<char>::empty());
    assert(seq![hi].last() == hi);
    assert(digits_value(Seq::<char>::empty(), 16) == Some(0int));
    assert(digits_value(seq![hi], 16) == Some((cs / 16) as int));
    assert(digits_value(hex, 16) == Some((cs / 16) * 16 + (cs % 16) as int));
    assert(parse_unsigned(hex, 16, 255) == Some(cs as int));
}

} // verus!
