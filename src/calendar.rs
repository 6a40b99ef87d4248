use vstd::prelude::*;

use crate::error::TimestampError;

verus! {

pub const SECONDS_IN_MINUTE: u64 = 60;
pub const SECONDS_IN_HOUR: u64 = 3600;
pub const SECONDS_IN_DAY: u64 = 86400;
pub const SECONDS_IN_YEAR: u64 = 31536000;
pub const SECONDS_IN_FOUR_YEARS_WITH_LEAP_YEAR: u64 = 126230400;
pub const SECONDS_BETWEEN_JAN_1_1972_AND_DEC_31_1999: u64 = 883612800;
pub const SECONDS_IN_100_YEARS: u64 = 3155673600;
pub const SECONDS_IN_400_YEARS: u64 = 12622780800;

/// The Gregorian rule: every fourth year, except centuries, except every fourth century.
pub open spec fn is_leap(y: int) -> bool {
    y % 4 == 0 && (y % 100 != 0 || y % 400 == 0)
}

pub open spec fn days_in_year(y: int) -> int {
    if is_leap(y) { 366 } else { 365 }
}

/// Days from 1970-01-01 to January 1st of year `y`.
pub open spec fn days_before_year(y: int) -> int
    decreases y - 1970,
{
    if y <= 1970 {
        0
    } else {
        days_before_year(y - 1) + days_in_year(y - 1)
    }
}

/// Number of leap years in `[1, n]`.
pub open spec fn leap_count(n: int) -> int {
    n / 4 - n / 100 + n / 400
}

proof fn lemma_leap_count_step(y: int)
    requires
        y >= 1,
    ensures
        leap_count(y) == leap_count(y - 1) + if is_leap(y) { 1int } else { 0int },
{
    assert(y / 4 == (y - 1) / 4 + if y % 4 == 0 { 1int } else { 0int });
    assert(y / 100 == (y - 1) / 100 + if y % 100 == 0 { 1int } else { 0int });
    assert(y / 400 == (y - 1) / 400 + if y % 400 == 0 { 1int } else { 0int });
    if y % 100 == 0 {
        assert(y % 4 == 0);
    }
    if y % 400 == 0 {
        assert(y % 100 == 0);
    }
}

/// The day count up to year `y` is 365 a year plus one for each leap year crossed.
pub proof fn lemma_days_before_year_closed(y: int)
    requires
        y >= 1970,
    ensures
        days_before_year(y) == 365 * (y - 1970) + leap_count(y - 1) - leap_count(1969),
    decreases y - 1970,
{
    if y > 1970 {
        lemma_days_before_year_closed(y - 1);
        lemma_leap_count_step(y - 1);
    }
}

pub proof fn lemma_days_before_year_monotonic(a: int, b: int)
    requires
        1970 <= a <= b,
    ensures
        days_before_year(a) <= days_before_year(b),
        days_before_year(b) - days_before_year(a) >= 365 * (b - a),
        days_before_year(b) - days_before_year(a) <= 366 * (b - a),
    decreases b - a,
{
    if a < b {
        lemma_days_before_year_monotonic(a, b - 1);
    }
}

proof fn lemma_four_hundred_years(c: int, k: int)
    requires
        c >= 1970,
        k >= 0,
    ensures
        days_before_year(c + 400 * k) == days_before_year(c) + 146097 * k,
{
    lemma_days_before_year_closed(c);
    lemma_days_before_year_closed(c + 400 * k);
    let n = c - 1;
    assert((n + 400 * k) / 4 == n / 4 + 100 * k);
    assert((n + 400 * k) / 100 == n / 100 + 4 * k);
    assert((n + 400 * k) / 400 == n / 400 + k);
}

proof fn lemma_hundred_years(c: int, k: int)
    requires
        c >= 2001,
        c % 400 == 1,
        0 <= k <= 3,
    ensures
        days_before_year(c + 100 * k) == days_before_year(c) + 36524 * k,
{
    lemma_days_before_year_closed(c);
    lemma_days_before_year_closed(c + 100 * k);
    let n = c - 1;
    assert((n + 100 * k) / 4 == n / 4 + 25 * k);
    assert((n + 100 * k) / 100 == n / 100 + k);
    assert((n + 100 * k) / 400 == n / 400);
}

proof fn lemma_four_years(c: int, k: int)
    requires
        c >= 1971,
        k >= 0,
        (c - 1) / 100 == (c - 1 + 4 * k) / 100,
        (c - 1) / 400 == (c - 1 + 4 * k) / 400,
    ensures
        days_before_year(c + 4 * k) == days_before_year(c) + 1461 * k,
{
    lemma_days_before_year_closed(c);
    lemma_days_before_year_closed(c + 4 * k);
    let n = c - 1;
    assert((n + 4 * k) / 4 == n / 4 + k);
}

proof fn lemma_plain_years(c: int, k: int)
    requires
        c >= 1970,
        c % 4 != 0,
        0 <= k,
        c % 4 + k <= 4,
    ensures
        days_before_year(c + k) == days_before_year(c) + 365 * k,
{
    if k >= 1 {
        assert(days_before_year(c + 1) == days_before_year(c) + 365);
    }
    if k >= 2 {
        assert(days_before_year(c + 2) == days_before_year(c + 1) + 365);
    }
    if k >= 3 {
        assert(days_before_year(c + 3) == days_before_year(c + 2) + 365);
    }
}

/// Leap-year test by the Gregorian rule.
pub fn is_leap_year(year: u64) -> (r: bool)
    ensures
        r == is_leap(year as int),
        r == (year % 4 == 0 && (year % 100 != 0 || year % 400 == 0)),
{
    if (year % 4) != 0 {
        return false;
    }
    if ((year % 400) == 0) || ((year % 100) != 0) {
        return true;
    }
    false
}

/// Advances `year_counter` towards `year` by as many whole blocks of `divisor`
/// years as fit, adding `seconds` to `ts` for each block.
pub fn increment_year_and_timestamp(year: u64, year_counter: u64, ts: u64, divisor: u64, seconds: u64) -> (r: (
    u64,
    u64,
))
    requires
        year_counter <= year,
        divisor > 0,
        ts + ((year - year_counter) / divisor as int) * seconds <= u64::MAX,
    ensures
        r.0 == year_counter + ((year - year_counter) / divisor as int) * divisor,
        r.1 == ts + ((year - year_counter) / divisor as int) * seconds,
        r.0 <= year,
        year - r.0 < divisor,
{
    let res = (year - year_counter) / divisor;
    proof {
        let d = (year - year_counter) as int;
        assert(res * divisor <= d && d - res * divisor < divisor) by (nonlinear_arith)
            requires
                res == d / divisor as int,
                divisor > 0,
                d >= 0,
        ;
    }
    let counter = year_counter + (res * divisor);
    let ts = ts + (res * seconds);
    (counter, ts)
}

/// Steps over `year_counter` when it is a leap year that lies before `year`.
pub fn increment_leap_year(year: u64, year_counter: u64, ts: u64) -> (r: (u64, u64))
    requires
        year_counter < year && is_leap(year_counter as int) ==> ts + SECONDS_IN_YEAR
            + SECONDS_IN_DAY <= u64::MAX,
    ensures
        year_counter < year && is_leap(year_counter as int) ==> r.0 == year_counter + 1 && r.1
            == ts + SECONDS_IN_YEAR + SECONDS_IN_DAY,
        !(year_counter < year && is_leap(year_counter as int)) ==> r.0 == year_counter && r.1
            == ts,
{
    let mut year_counter = year_counter;
    let mut ts = ts;
    if (year_counter < year) && is_leap_year(year_counter) {
        year_counter += 1;
        ts += SECONDS_IN_YEAR + SECONDS_IN_DAY;
    }
    (year_counter, ts)
}

/// The counters that the block decomposition passes through from 1972 on,
/// for a year before 2000, and the day count at each of them.
proof fn lemma_blocks_from_1972(y: int)
    requires
        1972 <= y < 2000,
    ensures
        ({
            let c4 = 1972 + ((y - 1972) / 4) * 4;
            let cl = if c4 < y { c4 + 1 } else { c4 };
            &&& days_before_year(1972) == 730
            &&& days_before_year(c4) == 730 + 1461 * ((y - 1972) / 4)
            &&& c4 <= y
            &&& (c4 < y ==> is_leap(c4))
            &&& cl <= y
            &&& y - cl < 4
            &&& days_before_year(y) == days_before_year(cl) + 365 * (y - cl)
        }),
{
    reveal_with_fuel(days_before_year, 3);
    let k = (y - 1972) / 4;
    let c4 = 1972 + k * 4;
    lemma_four_years(1972, k);
    if c4 < y {
        assert(days_before_year(c4 + 1) == days_before_year(c4) + 366);
        lemma_plain_years(c4 + 1, y - c4 - 1);
    }
}

/// The counters that the block decomposition passes through from 2000 on,
/// and the day count at each of them.
#[verifier::spinoff_prover]
#[verifier::rlimit(40)]
proof fn lemma_blocks_from_2000(y: int)
    requires
        y >= 2000,
    ensures
        ({
            let c400 = 2000 + ((y - 2000) / 400) * 400;
            let c1 = if c400 < y { c400 + 1 } else { c400 };
            let c100 = c1 + ((y - c1) / 100) * 100;
            let c4 = c100 + ((y - c100) / 4) * 4;
            &&& days_before_year(2000) == 10957
            &&& days_before_year(c400) == 10957 + 146097 * ((y - 2000) / 400)
            &&& c400 <= y
            &&& is_leap(c400)
            &&& days_before_year(c1) == days_before_year(c400) + 366 * (c1 - c400)
            &&& days_before_year(c100) == days_before_year(c1) + 36524 * ((y - c1) / 100)
            &&& days_before_year(c4) == days_before_year(c100) + 1461 * ((y - c100) / 4)
            &&& c4 <= y
            &&& (c4 < y ==> !is_leap(c4))
            &&& y - c4 < 4
            &&& days_before_year(y) == days_before_year(c4) + 365 * (y - c4)
        }),
{
    reveal_with_fuel(days_before_year, 3);
    lemma_four_years(1972, 7);
    let k400 = (y - 2000) / 400;
    let c400 = 2000 + k400 * 400;
    lemma_four_hundred_years(2000, k400);
    assert(days_before_year(c400 + 1) == days_before_year(c400) + 366);
    let c1 = if c400 < y { c400 + 1 } else { c400 };
    let k100 = (y - c1) / 100;
    let c100 = c1 + k100 * 100;
    let k4 = (y - c100) / 4;
    let c4 = c100 + k4 * 4;
    if c400 < y {
        assert(c1 % 400 == 1);
        assert(y - c1 < 399);
        assert(k100 <= 3);
        lemma_hundred_years(c1, k100);
        assert((c100 - 1) % 400 == 100 * k100);
        assert(y - c100 < 100);
        lemma_four_years(c100, k4);
        assert(c4 % 4 == 1);
        lemma_plain_years(c4, y - c4);
    } else {
        assert(c4 == y);
    }
}

/// Adds to `ts` the seconds from 1970-01-01 to January 1st of `year`.
pub fn add_year_to_second(ts: u64, year: u64) -> (r: u64)
    requires
        year >= 1970,
        ts + days_before_year(year as int) * 86400 <= u64::MAX,
    ensures
        r == ts + days_before_year(year as int) * 86400,
{
    let ghost ts0 = ts as int;
    let ghost y = year as int;
    let mut year_counter: u64;
    let mut ts = ts;
    if year < 1972 {
        proof {
            reveal_with_fuel(days_before_year, 2);
            assert(days_before_year(y) == 365 * (y - 1970));
        }
        ts += (year - 1970) * SECONDS_IN_YEAR;
        assert(ts == ts0 + days_before_year(y) * 86400);
    } else {
        proof {
            lemma_days_before_year_monotonic(1972, y);
            reveal_with_fuel(days_before_year, 3);
        }
        ts += 2 * SECONDS_IN_YEAR;
        year_counter = 1972;
        if year >= 2000 {
            proof {
                lemma_blocks_from_2000(y);
                lemma_days_before_year_monotonic(2000, y);
            }
            ts += SECONDS_BETWEEN_JAN_1_1972_AND_DEC_31_1999;
            year_counter = 2000;
            proof {
                lemma_days_before_year_monotonic(2000 + ((y - 2000) / 400) * 400, y);
            }
            let step = increment_year_and_timestamp(year, year_counter, ts, 400, SECONDS_IN_400_YEARS);
            year_counter = step.0;
            ts = step.1;
            proof {
                if year_counter < year {
                    lemma_days_before_year_monotonic(year_counter + 1, y);
                }
            }
            let step = increment_leap_year(year, year_counter, ts);
            year_counter = step.0;
            ts = step.1;
            proof {
                lemma_days_before_year_monotonic(year_counter + ((y - year_counter) / 100) * 100, y);
            }
            let step = increment_year_and_timestamp(year, year_counter, ts, 100, SECONDS_IN_100_YEARS);
            year_counter = step.0;
            ts = step.1;
        } else {
            proof {
                lemma_blocks_from_1972(y);
            }
        }
        proof {
            lemma_days_before_year_monotonic(year_counter + ((y - year_counter) / 4) * 4, y);
        }
        let step = increment_year_and_timestamp(year, year_counter, ts, 4, SECONDS_IN_FOUR_YEARS_WITH_LEAP_YEAR);
        year_counter = step.0;
        ts = step.1;
        proof {
            if year_counter < year && is_leap(year_counter as int) {
                lemma_days_before_year_monotonic(year_counter + 1, y);
            }
        }
        let step = increment_leap_year(year, year_counter, ts);
        year_counter = step.0;
        ts = step.1;
        assert(y - year_counter < 4);
        assert(days_before_year(y) == days_before_year(year_counter as int) + 365 * (y - year_counter));
        assert((year - year_counter) / 1 as int == year - year_counter);
        let step = increment_year_and_timestamp(year, year_counter, ts, 1, SECONDS_IN_YEAR);
        ts = step.1;
        assert(ts == ts0 + days_before_year(y) * 86400);
    }
    ts
}

pub open spec fn days_in_month(y: int, m: int) -> int {
    if m == 2 {
        if is_leap(y) { 29 } else { 28 }
    } else if m == 4 || m == 6 || m == 9 || m == 11 {
        30
    } else {
        31
    }
}

/// Days from January 1st of year `y` to the first day of month `m`.
pub open spec fn days_before_month(y: int, m: int) -> int
    decreases m,
{
    if m <= 1 {
        0
    } else {
        days_before_month(y, m - 1) + days_in_month(y, m - 1)
    }
}

/// Seconds from January 1st of `year` to the first day of `month`.
pub fn add_month_seconds(year: u64, month: u64) -> (r: u64)
    requires
        1 <= month <= 12,
    ensures
        r == days_before_month(year as int, month as int) * 86400,
{
    let month_seconds_map: Vec<u64>;
    if is_leap_year(year) {
        month_seconds_map = vec![0, 2678400, 5184000, 7862400, 10454400, 13132800,
                            15724800, 18403200, 21081600, 23673600, 26352000,
                            28944000, 31622400];
    } else {
        month_seconds_map = vec![0, 2678400, 5097600, 7776000, 10368000, 13046400,
                            15638400, 18316800, 20995200, 23587200, 26265600,
                            28857600, 31536000];
    }
    proof {
        reveal_with_fuel(days_before_month, 13);
    }
    month_seconds_map[(month as usize) - 1]
}

/// Number of days in `month` of `year`.
pub fn month_length(year: u64, month: u64) -> (r: u64)
    ensures
        r == days_in_month(year as int, month as int),
{
    if month == 2 {
        if is_leap_year(year) { 29 } else { 28 }
    } else if month == 4 || month == 6 || month == 9 || month == 11 {
        30
    } else {
        31
    }
}

/// A UTC instant broken into calendar fields.
#[derive(Clone, Copy, Debug, PartialEq, Eq, Structural)]
pub struct CalendarFields {
    pub year: u64,
    pub month: u64,
    pub day: u64,
    pub hour: u64,
    pub minute: u64,
    pub second: u64,
    pub fractional_nanos: u64,
}

impl CalendarFields {
    /// An existing instant from 1970 on, without leap seconds.
    pub open spec fn is_valid(self) -> bool {
        &&& self.year >= 1970
        &&& 1 <= self.month <= 12
        &&& 1 <= self.day <= days_in_month(self.year as int, self.month as int)
        &&& self.hour <= 23
        &&& self.minute <= 59
        &&& self.second <= 59
        &&& self.fractional_nanos <= 999_999_999
    }

    /// Strictly earlier in time, compared field by field from the year down.
    pub open spec fn precedes(self, o: CalendarFields) -> bool {
        ||| self.year < o.year
        ||| self.year == o.year && self.month < o.month
        ||| self.year == o.year && self.month == o.month && self.day < o.day
        ||| self.year == o.year && self.month == o.month && self.day == o.day && self.hour < o.hour
        ||| self.year == o.year && self.month == o.month && self.day == o.day && self.hour == o.hour
            && self.minute < o.minute
        ||| self.year == o.year && self.month == o.month && self.day == o.day && self.hour == o.hour
            && self.minute == o.minute && self.second < o.second
        ||| self.year == o.year && self.month == o.month && self.day == o.day && self.hour == o.hour
            && self.minute == o.minute && self.second == o.second && self.fractional_nanos
            < o.fractional_nanos
    }
}

/// Whole seconds from the epoch to the instant.
pub open spec fn epoch_seconds(f: CalendarFields) -> int {
    (days_before_year(f.year as int) + days_before_month(f.year as int, f.month as int) + f.day - 1)
        * 86400 + f.hour * 3600 + f.minute * 60 + f.second
}

/// Nanoseconds from the epoch to the instant.
pub open spec fn epoch_nanos(f: CalendarFields) -> int {
    epoch_seconds(f) * 1_000_000_000 + f.fractional_nanos
}

/// The result of converting calendar fields: the first check that fails, in
/// the order year, date, time of day, range of the result.
pub open spec fn nanos_of_fields(f: CalendarFields) -> Result<u64, TimestampError> {
    if f.year < 1970 {
        Err(TimestampError::UnsupportedYear)
    } else if !(1 <= f.month <= 12) || f.day < 1 || f.day > days_in_month(
        f.year as int,
        f.month as int,
    ) {
        Err(TimestampError::InvalidCalendarDate)
    } else if f.hour > 23 || f.minute > 59 || f.second > 59 || f.fractional_nanos > 999_999_999 {
        Err(TimestampError::InvalidTimeOfDay)
    } else if epoch_nanos(f) > u64::MAX {
        Err(TimestampError::Overflow)
    } else {
        Ok(epoch_nanos(f) as u64)
    }
}

/// Largest year whose first instant still fits in a 64-bit nanosecond count.
pub const LAST_SUPPORTED_YEAR: u64 = 2554;

/// Converts calendar fields to nanoseconds since the epoch.
pub fn convert_ymdhms_to_timestamp(
    year: u64,
    month: u64,
    day: u64,
    hour: u64,
    minute: u64,
    second: u64,
    decimal: u64,
) -> (r: Result<u64, TimestampError>)
    ensures
        r == nanos_of_fields(
            (CalendarFields {
                year,
                month,
                day,
                hour,
                minute,
                second,
                fractional_nanos: decimal,
            }),
        ),
{
    let ghost f = CalendarFields {
        year,
        month,
        day,
        hour,
        minute,
        second,
        fractional_nanos: decimal,
    };
    if year < 1970 {
        return Err(TimestampError::UnsupportedYear);
    }
    if month < 1 || month > 12 || day < 1 || day > month_length(year, month) {
        return Err(TimestampError::InvalidCalendarDate);
    }
    if hour > 23 || minute > 59 || second > 59 || decimal > 999_999_999 {
        return Err(TimestampError::InvalidTimeOfDay);
    }
    if year > LAST_SUPPORTED_YEAR {
        proof {
            lemma_days_before_year_monotonic(1970, year as int);
            assert(days_before_month(year as int, month as int) >= 0) by {
                lemma_days_before_month_bounds(year as int, month as int);
            }
            assert(epoch_nanos(f) > u64::MAX) by (nonlinear_arith)
                requires
                    epoch_nanos(f) == epoch_seconds(f) * 1_000_000_000 + f.fractional_nanos,
                    epoch_seconds(f) >= days_before_year(f.year as int) * 86400,
                    days_before_year(f.year as int) >= 365 * (f.year - 1970),
                    f.year >= 2555,
            ;
        }
        return Err(TimestampError::Overflow);
    }
    proof {
        lemma_days_before_year_monotonic(1970, year as int);
        lemma_days_before_month_bounds(year as int, month as int);
    }
    let mut ts: u64 = 0;
    ts = add_year_to_second(ts, year);
    ts += add_month_seconds(year, month);
    ts += (day - 1) * SECONDS_IN_DAY;
    ts += hour * SECONDS_IN_HOUR;
    ts += minute * SECONDS_IN_MINUTE;
    ts += second;
    assert(ts == epoch_seconds(f));
    let nanos: u128 = (ts as u128) * 1_000_000_000 + (decimal as u128);
    if nanos > u64::MAX as u128 {
        return Err(TimestampError::Overflow);
    }
    Ok(nanos as u64)
}

pub proof fn lemma_days_before_month_bounds(y: int, m: int)
    requires
        1 <= m <= 13,
    ensures
        0 <= days_before_month(y, m) <= 31 * (m - 1),
        days_before_month(y, 13) == days_in_year(y),
{
    reveal_with_fuel(days_before_month, 13);
}

proof fn lemma_days_before_month_monotonic(y: int, m1: int, m2: int)
    requires
        1 <= m1 <= m2 <= 13,
    ensures
        days_before_month(y, m1) <= days_before_month(y, m2),
    decreases m2 - m1,
{
    if m1 < m2 {
        lemma_days_before_month_monotonic(y, m1, m2 - 1);
    }
}

/// Days from the epoch to the start of the day that the fields name.
spec fn day_index(f: CalendarFields) -> int {
    days_before_year(f.year as int) + days_before_month(f.year as int, f.month as int) + f.day - 1
}

proof fn lemma_day_index_below_next_year(f: CalendarFields)
    requires
        f.is_valid(),
    ensures
        day_index(f) < days_before_year(f.year + 1),
{
    let y = f.year as int;
    let m = f.month as int;
    assert(days_before_month(y, m + 1) == days_before_month(y, m) + days_in_month(y, m));
    lemma_days_before_month_monotonic(y, m + 1, 13);
    lemma_days_before_month_bounds(y, 13);
}

/// Time moves forward: of two valid instants, the earlier one has the smaller
/// nanosecond count.
pub proof fn lemma_epoch_monotonic(a: CalendarFields, b: CalendarFields)
    requires
        a.is_valid(),
        b.is_valid(),
        a.precedes(b),
    ensures
        epoch_nanos(a) < epoch_nanos(b),
{
    lemma_days_before_month_bounds(a.year as int, a.month as int);
    lemma_days_before_month_bounds(b.year as int, b.month as int);
    if a.year < b.year {
        lemma_day_index_below_next_year(a);
        lemma_days_before_year_monotonic(a.year + 1, b.year as int);
        assert(day_index(a) < day_index(b));
    } else if a.year == b.year && a.month < b.month {
        let y = a.year as int;
        assert(days_before_month(y, a.month + 1) == days_before_month(y, a.month as int)
            + days_in_month(y, a.month as int));
        lemma_days_before_month_monotonic(y, a.month + 1, b.month as int);
        assert(day_index(a) < day_index(b));
    }
    assert(epoch_seconds(a) == day_index(a) * 86400 + a.hour * 3600 + a.minute * 60 + a.second);
    assert(epoch_seconds(b) == day_index(b) * 86400 + b.hour * 3600 + b.minute * 60 + b.second);
    if epoch_seconds(a) < epoch_seconds(b) {
        assert(epoch_seconds(a) * 1_000_000_000 + 1_000_000_000 <= epoch_seconds(b) * 1_000_000_000);
    }
}

/// The calendar is consistent with the leap-year rule at every year boundary:
/// a year contributes 366 days' worth of seconds exactly when it is a leap
/// year, and its months add up to the same length.
pub proof fn lemma_year_boundary(y: int)
    requires
        y >= 1970,
    ensures
        (days_before_year(y + 1) - days_before_year(y)) * 86400 == if is_leap(y) {
            SECONDS_IN_YEAR + SECONDS_IN_DAY
        } else {
            SECONDS_IN_YEAR as int
        },
        days_before_month(y, 13) == days_before_year(y + 1) - days_before_year(y),
{
    lemma_days_before_month_bounds(y, 13);
}

/// A successful conversion comes from valid fields and gives their exact count.
pub proof fn lemma_nanos_of_fields_ok(f: CalendarFields)
    requires
        nanos_of_fields(f) is Ok,
    ensures
        f.is_valid(),
        nanos_of_fields(f)->Ok_0 == epoch_nanos(f),
{
    lemma_days_before_year_monotonic(1970, f.year as int);
    lemma_days_before_month_bounds(f.year as int, f.month as int);
}

} // verus!
