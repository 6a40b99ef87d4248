use vstd::prelude::*;
use vstd::utf8::encode_utf8;

use crate::calendar::{convert_ymdhms_to_timestamp, nanos_of_fields, CalendarFields};
use crate::digits::{
    all_digits, contains_byte, decimal_u64, find_byte, is_all_digits, fraction_value, parse_decimal,
    parse_fraction, split_at_byte, split_once,
};
use crate::error::{Malformation, Stage, TimestampError};

verus! {

pub const DASH: u8 = 45;
pub const COLON: u8 = 58;
pub const DOT: u8 = 46;
pub const DATE_TIME_SEPARATOR: u8 = 84;
pub const ZONE_DESIGNATOR: u8 = 90;

pub open spec fn malformed(stage: Stage, detail: Malformation) -> TimestampError {
    TimestampError::MalformedTimestamp { stage, detail }
}

/// A field that must be a non-negative integer.
pub open spec fn number_field(b: Seq<u8>, stage: Stage) -> Result<u64, TimestampError> {
    match decimal_u64(b) {
        Some(v) => Ok(v),
        None => Err(malformed(stage, Malformation::NotAnInteger)),
    }
}

/// `YYYY-MM-DD`: exactly three integers separated by dashes, read as
/// (year, month, day).
pub open spec fn parse_date(b: Seq<u8>) -> Result<(u64, u64, u64), TimestampError> {
    match split_at_byte(b, DASH) {
        None => Err(malformed(Stage::Date, Malformation::WrongFieldCount)),
        Some((ys, rest)) => match split_at_byte(rest, DASH) {
            None => Err(malformed(Stage::Date, Malformation::WrongFieldCount)),
            Some((ms, ds)) => if contains_byte(ds, DASH) {
                Err(malformed(Stage::Date, Malformation::WrongFieldCount))
            } else {
                match number_field(ys, Stage::Year) {
                    Err(e) => Err(e),
                    Ok(y) => match number_field(ms, Stage::Month) {
                        Err(e) => Err(e),
                        Ok(m) => match number_field(ds, Stage::Day) {
                            Err(e) => Err(e),
                            Ok(d) => Ok((y, m, d)),
                        },
                    },
                }
            },
        },
    }
}

/// The seconds field without its `Z`: integer seconds, then optionally a dot
/// and up to nine fractional digits, read as (second, nanoseconds).
pub open spec fn parse_seconds(b: Seq<u8>) -> Result<(u64, u64), TimestampError> {
    match split_at_byte(b, DOT) {
        None => match number_field(b, Stage::Second) {
            Err(e) => Err(e),
            Ok(s) => Ok((s, 0)),
        },
        Some((ss, fs)) => match number_field(ss, Stage::Second) {
            Err(e) => Err(e),
            Ok(s) => if fs.len() > 9 {
                Err(malformed(Stage::Fraction, Malformation::TooManyDigits))
            } else if !all_digits(fs) {
                Err(malformed(Stage::Fraction, Malformation::NotAnInteger))
            } else {
                Ok((s, fraction_value(fs) as u64))
            },
        },
    }
}

/// `HH:MM:SS[.F]Z`: exactly three colon-separated fields, read as
/// (hour, minute, second, nanoseconds).
pub open spec fn parse_time(b: Seq<u8>) -> Result<(u64, u64, u64, u64), TimestampError> {
    match split_at_byte(b, COLON) {
        None => Err(malformed(Stage::Time, Malformation::WrongFieldCount)),
        Some((hs, rest)) => match split_at_byte(rest, COLON) {
            None => Err(malformed(Stage::Time, Malformation::WrongFieldCount)),
            Some((ms, ss)) => if contains_byte(ss, COLON) {
                Err(malformed(Stage::Time, Malformation::WrongFieldCount))
            } else {
                match number_field(hs, Stage::Hour) {
                    Err(e) => Err(e),
                    Ok(h) => match number_field(ms, Stage::Minute) {
                        Err(e) => Err(e),
                        Ok(mi) => if ss.len() == 0 || ss.last() != ZONE_DESIGNATOR {
                            Err(malformed(Stage::Zone, Malformation::MissingZone))
                        } else {
                            match parse_seconds(ss.drop_last()) {
                                Err(e) => Err(e),
                                Ok((s, f)) => Ok((h, mi, s, f)),
                            }
                        },
                    },
                }
            },
        },
    }
}

/// `DATE T TIME`, split at the first `T`, read as calendar fields.
pub open spec fn parse_timestamp(b: Seq<u8>) -> Result<CalendarFields, TimestampError> {
    match split_at_byte(b, DATE_TIME_SEPARATOR) {
        None => Err(malformed(Stage::DateTimeSeparator, Malformation::MissingSeparator)),
        Some((ds, ts)) => match parse_date(ds) {
            Err(e) => Err(e),
            Ok((y, m, d)) => match parse_time(ts) {
                Err(e) => Err(e),
                Ok((h, mi, s, f)) => Ok(
                    CalendarFields {
                        year: y,
                        month: m,
                        day: d,
                        hour: h,
                        minute: mi,
                        second: s,
                        fractional_nanos: f,
                    },
                ),
            },
        },
    }
}

/// Nanoseconds since the epoch that a timestamp string denotes, or the first
/// error met.
pub open spec fn timestamp_of(b: Seq<u8>) -> Result<u64, TimestampError> {
    match parse_timestamp(b) {
        Err(e) => Err(e),
        Ok(f) => nanos_of_fields(f),
    }
}

fn number(b: &[u8], stage: Stage) -> (r: Result<u64, TimestampError>)
    ensures
        r == number_field(b@, stage),
{
    match parse_decimal(b) {
        Some(v) => Ok(v),
        None => Err(TimestampError::MalformedTimestamp { stage, detail: Malformation::NotAnInteger }),
    }
}

/// Reads `YYYY-MM-DD` as (year, month, day).
pub fn convert_date_string_to_ymd(iso_date: &[u8]) -> (r: Result<(u64, u64, u64), TimestampError>)
    ensures
        r == parse_date(iso_date@),
{
    let wrong_count = TimestampError::MalformedTimestamp {
        stage: Stage::Date,
        detail: Malformation::WrongFieldCount,
    };
    let (year, rest) = match split_once(iso_date, DASH) {
        Some(p) => p,
        None => return Err(wrong_count),
    };
    let (month, day) = match split_once(rest, DASH) {
        Some(p) => p,
        None => return Err(wrong_count),
    };
    if find_byte(day, DASH) < day.len() {
        return Err(wrong_count);
    }
    let year = number(year, Stage::Year)?;
    let month = number(month, Stage::Month)?;
    let day = number(day, Stage::Day)?;
    Ok((year, month, day))
}

fn seconds_and_fraction(b: &[u8]) -> (r: Result<(u64, u64), TimestampError>)
    ensures
        r == parse_seconds(b@),
{
    match split_once(b, DOT) {
        None => {
            let second = number(b, Stage::Second)?;
            Ok((second, 0))
        },
        Some((second, fraction)) => {
            let second = number(second, Stage::Second)?;
            if fraction.len() > 9 {
                return Err(
                    TimestampError::MalformedTimestamp {
                        stage: Stage::Fraction,
                        detail: Malformation::TooManyDigits,
                    },
                );
            }
            if !is_all_digits(fraction) {
                return Err(
                    TimestampError::MalformedTimestamp {
                        stage: Stage::Fraction,
                        detail: Malformation::NotAnInteger,
                    },
                );
            }
            Ok((second, parse_fraction(fraction)))
        },
    }
}

/// Reads `HH:MM:SS[.F]Z` as (hour, minute, second, nanoseconds), the
/// fraction right-padded with zeros to nine digits.
pub fn split_time_int(iso_time: &[u8]) -> (r: Result<(u64, u64, u64, u64), TimestampError>)
    ensures
        r == parse_time(iso_time@),
{
    let wrong_count = TimestampError::MalformedTimestamp {
        stage: Stage::Time,
        detail: Malformation::WrongFieldCount,
    };
    let (hour, rest) = match split_once(iso_time, COLON) {
        Some(p) => p,
        None => return Err(wrong_count),
    };
    let (minute, remain) = match split_once(rest, COLON) {
        Some(p) => p,
        None => return Err(wrong_count),
    };
    if find_byte(remain, COLON) < remain.len() {
        return Err(wrong_count);
    }
    let hour = number(hour, Stage::Hour)?;
    let minute = number(minute, Stage::Minute)?;
    let n = remain.len();
    if n == 0 || remain[n - 1] != ZONE_DESIGNATOR {
        return Err(
            TimestampError::MalformedTimestamp { stage: Stage::Zone, detail: Malformation::MissingZone },
        );
    }
    let body = vstd::slice::slice_subrange(remain, 0, n - 1);
    assert(body@ =~= remain@.drop_last());
    let (second, decimal) = seconds_and_fraction(body)?;
    Ok((hour, minute, second, decimal))
}

/// Reads `YYYY-MM-DDTHH:MM:SS[.F]Z` into calendar fields.
pub fn convert_date_time_string_to_ymdhms(iso: &[u8]) -> (r: Result<CalendarFields, TimestampError>)
    ensures
        r == parse_timestamp(iso@),
{
    let (iso_date, iso_time) = match split_once(iso, DATE_TIME_SEPARATOR) {
        Some(p) => p,
        None => return Err(
            TimestampError::MalformedTimestamp {
                stage: Stage::DateTimeSeparator,
                detail: Malformation::MissingSeparator,
            },
        ),
    };
    let (year, month, day) = convert_date_string_to_ymd(iso_date)?;
    let (hour, minute, second, decimal) = split_time_int(iso_time)?;
    Ok(
        CalendarFields {
            year,
            month,
            day,
            hour,
            minute,
            second,
            fractional_nanos: decimal,
        },
    )
}

/// Converts a UTC timestamp `YYYY-MM-DDTHH:MM:SS[.F]Z` to nanoseconds since
/// 1970-01-01T00:00:00Z.
pub fn convert_iso_string_to_timestamp(iso_string: &String) -> (r: Result<u64, TimestampError>)
    ensures
        r == timestamp_of(encode_utf8(iso_string@)),
{
    let bytes = iso_string.as_str().as_bytes();
    let f = convert_date_time_string_to_ymdhms(bytes)?;
    convert_ymdhms_to_timestamp(
        f.year,
        f.month,
        f.day,
        f.hour,
        f.minute,
        f.second,
        f.fractional_nanos,
    )
}

/// Whether `err` is a parse failure rather than a calendar or range failure.
pub open spec fn is_malformed(err: TimestampError) -> bool {
    err is MalformedTimestamp
}

proof fn lemma_suffix_last(b: Seq<u8>, k: int)
    requires
        0 <= k < b.len(),
    ensures
        b.subrange(k, b.len() as int).last() == b.last(),
{
}

/// Parsing fails only with a malformation, and succeeds only on a string
/// that has a date-time separator and ends with the UTC designator.
pub proof fn lemma_parse_shape(b: Seq<u8>)
    ensures
        parse_timestamp(b) is Err ==> is_malformed(parse_timestamp(b)->Err_0),
        parse_timestamp(b) is Ok ==> contains_byte(b, DATE_TIME_SEPARATOR) && b.len() > 0
            && b.last() == ZONE_DESIGNATOR,
{
    if let Some((ds, ts)) = split_at_byte(b, DATE_TIME_SEPARATOR) {
        let i = crate::digits::first_index(b, DATE_TIME_SEPARATOR) as int;
        if let Some((hs, rest)) = split_at_byte(ts, COLON) {
            let j = crate::digits::first_index(ts, COLON) as int;
            if let Some((ms, ss)) = split_at_byte(rest, COLON) {
                let k = crate::digits::first_index(rest, COLON) as int;
                if ss.len() > 0 {
                    lemma_suffix_last(rest, k + 1);
                    lemma_suffix_last(ts, j + 1);
                    lemma_suffix_last(b, i + 1);
                }
            }
        }
    }
}

/// Input without a `T`, or not ending in `Z`, is rejected as malformed.
pub proof fn lemma_rejects_missing_separator_or_zone(b: Seq<u8>)
    requires
        !contains_byte(b, DATE_TIME_SEPARATOR) || b.len() == 0 || b.last() != ZONE_DESIGNATOR,
    ensures
        timestamp_of(b) is Err,
        is_malformed(timestamp_of(b)->Err_0),
{
    lemma_parse_shape(b);
}

/// Of two strings that convert, the one naming the earlier instant gives the
/// smaller nanosecond count.
pub proof fn lemma_timestamp_monotonic(s1: Seq<u8>, s2: Seq<u8>)
    requires
        timestamp_of(s1) is Ok,
        timestamp_of(s2) is Ok,
        parse_timestamp(s1)->Ok_0.precedes(parse_timestamp(s2)->Ok_0),
    ensures
        timestamp_of(s1)->Ok_0 < timestamp_of(s2)->Ok_0,
{
    assert(parse_timestamp(s1) is Ok);
    assert(parse_timestamp(s2) is Ok);
    let a = parse_timestamp(s1)->Ok_0;
    let b = parse_timestamp(s2)->Ok_0;
    crate::calendar::lemma_nanos_of_fields_ok(a);
    crate::calendar::lemma_nanos_of_fields_ok(b);
    crate::calendar::lemma_epoch_monotonic(a, b);
}

} // verus!
