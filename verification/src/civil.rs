//! Proleptic Gregorian calendar arithmetic: days since the Unix epoch to
//! and from a civil date, using Howard Hinnant's era-based algorithms.
//!
//! An "era" is a 400-year cycle (146097 days) starting on March 1st, so
//! that the leap day is the last day of its year. Within an era, a year
//! of era `yoe` starts on day `365 * yoe + yoe / 4 - yoe / 100`, and a
//! March-based month `mp` (0 = March) starts on day-of-year
//! `(153 * mp + 2) / 5`.
use vstd::prelude::*;

verus! {

/// First day-of-era of year-of-era `yoe`.
pub open spec fn year_start(yoe: int) -> int {
    365 * yoe + yoe / 4 - yoe / 100
}

/// First day-of-year of March-based month `mp`.
pub open spec fn month_start(mp: int) -> int {
    (153 * mp + 2) / 5
}

/// Days since 1970-01-01 of the civil date `y-m-d` (any integers: months
/// and days outside their usual range carry over arithmetically).
pub open spec fn civil_to_days(y: int, m: int, d: int) -> int {
    let y = if m <= 2 { y - 1 } else { y };
    let era = y / 400;
    let yoe = y - era * 400;
    let mp = if m > 2 { m - 3 } else { m + 9 };
    let doy = month_start(mp) + d - 1;
    let doe = year_start(yoe) + doy;
    era * 146097 + doe - 719468
}

/// Year of era of day-of-era `doe`.
pub open spec fn year_of_era(doe: int) -> int {
    (doe - doe / 1460 + doe / 36524 - doe / 146096) / 365
}

/// Civil date `(year, month, day)` of day `z` since 1970-01-01.
pub open spec fn days_to_civil(z: int) -> (int, int, int) {
    let z = z + 719468;
    let era = z / 146097;
    let doe = z - era * 146097;
    let yoe = year_of_era(doe);
    let y = yoe + era * 400;
    let doy = doe - year_start(yoe);
    let mp = (5 * doy + 2) / 153;
    let d = doy - month_start(mp) + 1;
    let m = if mp < 10 { mp + 3 } else { mp - 9 };
    let y = if m <= 2 { y + 1 } else { y };
    (y, m, d)
}

/// Whether `y` is a Gregorian leap year.
pub open spec fn is_leap_year(y: int) -> bool {
    y % 4 == 0 && (y % 100 != 0 || y % 400 == 0)
}

/// Number of days in month `m` (1-12) of year `y`.
pub open spec fn days_in_month(y: int, m: int) -> int {
    if m == 2 {
        if is_leap_year(y) {
            29
        } else {
            28
        }
    } else if m == 4 || m == 6 || m == 9 || m == 11 {
        30
    } else {
        31
    }
}

/// Whether `y-m-d` is a real calendar date.
pub open spec fn valid_date(y: int, m: int, d: int) -> bool {
    1 <= m <= 12 && 1 <= d <= days_in_month(y, m)
}

/// A day of era written as century `c`, four-year block `q`, year `r`
/// within the block and day `doy` within the year maps back to year
/// `100c + 4q + r` of the era. `doy` may be 365 only in a leap year.
proof fn lemma_year_of_era(c: int, q: int, r: int, doy: int)
    requires
        0 <= c <= 3,
        0 <= q <= 24,
        0 <= r <= 3,
        0 <= doy <= 365,
        doy == 365 ==> r == 3 && (q < 24 || c == 3),
    ensures
        year_of_era(36524 * c + 1461 * q + 365 * r + doy) == 100 * c + 4 * q + r,
        year_start(100 * c + 4 * q + r) == 36524 * c + 1461 * q + 365 * r,
{
    let y = 100 * c + 4 * q + r;
    assert(y / 4 == 25 * c + q);
    assert(y / 100 == c);
    let doe = 36524 * c + 1461 * q + 365 * r + doy;
    assert(doe / 146096 == (if doe == 146096 { 1int } else { 0int }));
    assert(doe / 36524 == (if doe == 146096 { 4int } else { c }));
}


/// Every day of era lies in a year of era `0..=399`, at a day of year
/// `0..=365`, where day 365 only occurs in a leap year.
proof fn lemma_day_of_era(doe: int)
    requires
        0 <= doe <= 146096,
    ensures
        0 <= year_of_era(doe) <= 399,
        0 <= doe - year_start(year_of_era(doe)) <= 365,
        doe - year_start(year_of_era(doe)) == 365 ==> (year_of_era(doe) + 1) % 4 == 0 && ((year_of_era(doe)
            + 1) % 100 != 0 || year_of_era(doe) == 399),
{
    let c = if doe / 36524 > 3 { 3 } else { doe / 36524 };
    let r1 = doe - 36524 * c;
    let q = r1 / 1461;
    let r2 = r1 - 1461 * q;
    let r = if r2 / 365 > 3 { 3 } else { r2 / 365 };
    let doy = r2 - 365 * r;
    assert(0 <= q <= 24);
    assert(doy == 365 ==> r == 3 && (q < 24 || c == 3));
    lemma_year_of_era(c, q, r, doy);
}

/// Day of year `doy` falls in March-based month `(5 * doy + 2) / 153`,
/// which is one of the twelve.
proof fn lemma_month_of_year(doy: int)
    requires
        0 <= doy <= 365,
    ensures
        0 <= (5 * doy + 2) / 153 <= 11,
        month_start((5 * doy + 2) / 153) <= doy,
{
}

/// Length of March-based month `mp` in a year whose February has
/// `feb` days.
pub open spec fn month_len(mp: int, feb: int) -> int {
    if mp == 11 {
        feb
    } else if mp == 1 || mp == 3 || mp == 6 || mp == 8 {
        30
    } else {
        31
    }
}

/// Day `d` of March-based month `mp` is found again in month `mp`.
proof fn lemma_month_round_trip(mp: int, d: int)
    requires
        0 <= mp <= 11,
        1 <= d <= month_len(mp, 29),
    ensures
        (5 * (month_start(mp) + d - 1) + 2) / 153 == mp,
        month_start(mp) + d - 1 <= 365,
{
}

/// Turning a day count into a civil date and back gives the day count.
pub proof fn lemma_days_civil_days(z: int)
    ensures
        ({
            let (y, m, d) = days_to_civil(z);
            civil_to_days(y, m, d) == z
        }),
{
    let zz = z + 719468;
    let era = zz / 146097;
    let doe = zz - era * 146097;
    lemma_day_of_era(doe);
    let yoe = year_of_era(doe);
    let doy = doe - year_start(yoe);
    lemma_month_of_year(doy);
    let mp = (5 * doy + 2) / 153;
    let yy = yoe + era * 400;
    assert(yy / 400 == era);
}

/// Turning a real calendar date into a day count and back gives the
/// date.
pub proof fn lemma_civil_days_civil(y: int, m: int, d: int)
    requires
        valid_date(y, m, d),
    ensures
        days_to_civil(civil_to_days(y, m, d)) == (y, m, d),
{
    let yy = if m <= 2 { y - 1 } else { y };
    let era = yy / 400;
    let yoe = yy - era * 400;
    let mp = if m > 2 { m - 3 } else { m + 9 };
    let c = yoe / 100;
    let q = (yoe % 100) / 4;
    let r = yoe % 4;
    assert(yoe == 100 * c + 4 * q + r);
    let feb = if is_leap_year(yy + 1) { 29int } else { 28int };
    assert(m == 2 ==> yy + 1 == y);
    assert(d <= month_len(mp, feb));
    lemma_month_round_trip(mp, d);
    let doy = month_start(mp) + d - 1;
    assert(0 <= doy);
    assert(feb == 29 ==> r == 3 && (q < 24 || c == 3)) by {
        if feb == 29 {
            assert((yy + 1) % 4 == (yoe + 1) % 4);
            assert((yy + 1) % 100 == 0 ==> (yoe + 1) % 100 == 0);
            assert((yy + 1) % 400 == 0 ==> yoe == 399);
        }
    }
    assert(doy == 365 ==> mp == 11 && d == 29);
    lemma_year_of_era(c, q, r, doy);
    let doe = year_start(yoe) + doy;
    assert(doe == 36524 * c + 1461 * q + 365 * r + doy);
    let zz = era * 146097 + doe;
    assert(zz / 146097 == era);
}


/// The month of any day is `1..=12` and its day of month `1..=31`.
pub proof fn lemma_days_to_civil_ranges(z: int)
    ensures
        1 <= days_to_civil(z).1 <= 12,
        1 <= days_to_civil(z).2 <= 31,
{
    let zz = z + 719468;
    let era = zz / 146097;
    let doe = zz - era * 146097;
    lemma_day_of_era(doe);
    lemma_month_of_year(doe - year_start(year_of_era(doe)));
}

/// The calendar day after `y-m-d`.
pub open spec fn next_date(y: int, m: int, d: int) -> (int, int, int) {
    if d < days_in_month(y, m) {
        (y, m, d + 1)
    } else if m < 12 {
        (y, m + 1, 1)
    } else {
        (y + 1, 1, 1)
    }
}

/// Consecutive March-based months start `month_len` days apart.
proof fn lemma_month_step(mp: int)
    requires
        0 <= mp <= 10,
    ensures
        month_start(mp + 1) == month_start(mp) + month_len(mp, 28),
{
    if mp == 0 {
    } else if mp == 1 {
    } else if mp == 2 {
    } else if mp == 3 {
    } else if mp == 4 {
    } else if mp == 5 {
    } else if mp == 6 {
    } else if mp == 7 {
    } else if mp == 8 {
    } else if mp == 9 {
    } else {
    }
}

/// Day count of March 1st of year `yy`, as the era algorithm gives it.
spec fn march_first(yy: int) -> int {
    let era = yy / 400;
    (yy / 400) * 146097 + year_start(yy - era * 400) - 719468
}

/// March 1st of `yy + 1` comes 365 days after March 1st of `yy`, or 366
/// when the February in between has a leap day.
proof fn lemma_march_year_len(yy: int)
    ensures
        march_first(yy + 1) == march_first(yy) + 365 + (if is_leap_year(yy + 1) { 1int } else { 0int }),
{
    let era = yy / 400;
    let yoe = yy - era * 400;
    assert(0 <= yoe < 400);
    if yoe < 399 {
        assert((yy + 1) / 400 == era);
        assert((yy + 1) - era * 400 == yoe + 1);
        assert((yoe + 1) / 4 - yoe / 4 == (if (yoe + 1) % 4 == 0 { 1int } else { 0int }));
        assert((yoe + 1) / 100 - yoe / 100 == (if (yoe + 1) % 100 == 0 { 1int } else { 0int }));
        assert((yy + 1) % 4 == (yoe + 1) % 4) by (nonlinear_arith)
            requires
                yy + 1 == 400 * era + (yoe + 1),
        ;
        assert((yy + 1) % 100 == (yoe + 1) % 100) by (nonlinear_arith)
            requires
                yy + 1 == 400 * era + (yoe + 1),
        ;
        assert((yy + 1) % 400 == yoe + 1) by (nonlinear_arith)
            requires
                yy + 1 == 400 * era + (yoe + 1),
                0 <= yoe + 1 < 400,
        ;
    } else {
        assert((yy + 1) / 400 == era + 1);
        assert((yy + 1) - (era + 1) * 400 == 0);
        assert((yy + 1) % 400 == 0);
        assert((yy + 1) % 100 == 0);
        assert((yy + 1) % 4 == 0);
        assert(year_start(399) == 145731);
    }
}

/// The epoch: 1970-01-01 is day 0.
pub proof fn lemma_epoch_is_day_zero()
    ensures
        civil_to_days(1970, 1, 1) == 0,
{
    assert(month_start(10) == 306);
    assert(year_start(369) == 134774);
}

/// Consecutive calendar days are consecutive day counts: the day after
/// a real date is a real date, one day later. With
/// [`lemma_epoch_is_day_zero`] this fixes the day count of every date.
pub proof fn lemma_next_date_is_next_day(y: int, m: int, d: int)
    requires
        valid_date(y, m, d),
    ensures
        valid_date(next_date(y, m, d).0, next_date(y, m, d).1, next_date(y, m, d).2),
        civil_to_days(next_date(y, m, d).0, next_date(y, m, d).1, next_date(y, m, d).2) == civil_to_days(y, m, d)
            + 1,
{
    if d < days_in_month(y, m) {
    } else if m == 2 {
        lemma_march_year_len(y - 1);
        assert(month_start(11) == 337);
        assert(civil_to_days(y, 2, d) == march_first(y - 1) + 337 + d - 1);
        assert(civil_to_days(y, 3, 1) == march_first(y));
    } else if m < 12 {
        let mp = if m > 2 { m - 3 } else { m + 9 };
        lemma_month_step(mp);
    } else {
        lemma_month_step(9);
        assert(civil_to_days(y, 12, 31) == march_first(y) + month_start(9) + 30);
        assert(civil_to_days(y + 1, 1, 1) == march_first(y) + month_start(10));
    }
}

/// Every day count is a real calendar date: no February 29th outside a
/// leap year, no 31st of a 30-day month.
pub proof fn lemma_days_to_civil_valid(z: int)
    ensures
        valid_date(days_to_civil(z).0, days_to_civil(z).1, days_to_civil(z).2),
{
    let zz = z + 719468;
    let era = zz / 146097;
    let doe = zz - era * 146097;
    lemma_day_of_era(doe);
    let yoe = year_of_era(doe);
    let doy = doe - year_start(yoe);
    lemma_month_of_year(doy);
    let mp = (5 * doy + 2) / 153;
    let y0 = yoe + era * 400;
    lemma_days_to_civil_ranges(z);
    if mp <= 10 {
        lemma_month_step(mp);
        assert(doy < month_start(mp + 1));
    } else {
        assert(month_start(11) == 337);
        if doy == 365 {
            assert((y0 + 1) % 4 == (yoe + 1) % 4) by (nonlinear_arith)
                requires
                    y0 + 1 == 400 * era + (yoe + 1),
            ;
            assert((y0 + 1) % 100 == (yoe + 1) % 100) by (nonlinear_arith)
                requires
                    y0 + 1 == 400 * era + (yoe + 1),
            ;
            assert(yoe == 399 ==> (y0 + 1) % 400 == 0) by (nonlinear_arith)
                requires
                    y0 + 1 == 400 * era + (yoe + 1),
            ;
            assert(is_leap_year(y0 + 1));
        }
    }
}

/// Days since 1970-01-01 of the civil date `y-m-d`, computed with the
/// era-based algorithm on machine integers. Years within 400 of
/// `i32::MIN` overflow the era arithmetic and are excluded.
pub fn days_from_civil(y: i32, m: u32, d: u32) -> (r: i64)
    requires
        (if m <= 2 { y - 1 } else { y as int }) >= i32::MIN + 399,
    ensures
        r == civil_to_days(y as int, m as int, d as int),
        0 <= y <= 65535 && m <= 255 && d <= 255 ==> -1_000_000 <= r <= 25_000_000,
{
    let y = if m <= 2 { y - 1 } else { y };
    let era = (if y >= 0 { y } else { y - 399 }) / 400;
    assert(era == y / 400);
    let yoe = (y - era * 400) as i64;
    let mp = (if m > 2 { m - 3 } else { m + 9 }) as i64;
    assert(0 <= mp < 0x1_0000_0000);
    let doy = (153 * mp + 2) / 5 + d as i64 - 1;
    let doe = yoe * 365 + yoe / 4 - yoe / 100 + doy;
    assert(-5_400_000 <= era <= 5_400_000);
    assert(era * 146097 <= 5_400_000 * 146097 && era * 146097 >= -5_400_000 * 146097) by (nonlinear_arith)
        requires
            -5_400_000 <= era <= 5_400_000,
    ;
    era as i64 * 146097 + doe - 719468
}

/// Civil date `(year, month, day)` of day `z` since 1970-01-01, computed
/// with the era-based algorithm on machine integers; the year is
/// truncated to `i32`. Day counts within about 720000 of the `i64` limits
/// overflow the era arithmetic and are excluded.
pub fn civil_from_days(z: i64) -> (r: (i32, u32, u32))
    requires
        i64::MIN + 573372 <= z <= i64::MAX - 719468,
    ensures
        r.0 == days_to_civil(z as int).0 as i32,
        -500_000_000_000 <= z <= 500_000_000_000 ==> r.0 == days_to_civil(z as int).0,
        r.1 == days_to_civil(z as int).1,
        r.2 == days_to_civil(z as int).2,
        1 <= r.1 <= 12,
        1 <= r.2 <= 31,
{
    let z = z + 719468;
    let era = (if z >= 0 { z } else { z - 146096 }) / 146097;
    assert(era == z / 146097);
    let doe = z - era * 146097;
    proof {
        lemma_day_of_era(doe as int);
        lemma_month_of_year(doe - year_start(year_of_era(doe as int)));
    }
    let yoe = (doe - doe / 1460 + doe / 36524 - doe / 146096) / 365;
    let y = yoe + era * 400;
    let doy = doe - (365 * yoe + yoe / 4 - yoe / 100);
    let mp = (5 * doy + 2) / 153;
    let d = (doy - (153 * mp + 2) / 5 + 1) as u32;
    let m = (if mp < 10 { mp + 3 } else { mp - 9 }) as u32;
    let y = if m <= 2 { y + 1 } else { y };
    (y as i32, m, d)
}

} // verus!
