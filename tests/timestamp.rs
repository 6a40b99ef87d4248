use oracle_timestamp::calendar::{
    add_month_seconds, add_year_to_second, convert_ymdhms_to_timestamp, increment_leap_year,
    increment_year_and_timestamp, is_leap_year, month_length,
};
use oracle_timestamp::error::{Malformation, Stage, TimestampError};
use oracle_timestamp::timestamp::{
    convert_date_string_to_ymd, convert_date_time_string_to_ymdhms, convert_iso_string_to_timestamp,
    split_time_int,
};

fn nanos(s: &str) -> Result<u64, TimestampError> {
    convert_iso_string_to_timestamp(&s.to_string())
}

fn malformed(stage: Stage, detail: Malformation) -> Result<u64, TimestampError> {
    Err(TimestampError::MalformedTimestamp { stage, detail })
}

#[test]
fn epoch_itself_is_zero() {
    assert_eq!(nanos("1970-01-01T00:00:00Z"), Ok(0));
}

#[test]
fn start_of_2000() {
    assert_eq!(nanos("2000-01-01T00:00:00Z"), Ok(946_684_800 * 1_000_000_000));
}

#[test]
fn start_of_1972() {
    assert_eq!(nanos("1972-01-01T00:00:00Z"), Ok(63_072_000 * 1_000_000_000));
}

#[test]
fn leap_day_with_fraction() {
    assert_eq!(nanos("2024-02-29T12:30:45.123Z"), Ok(1_709_209_845_123_000_000));
    let f = convert_date_time_string_to_ymdhms("2024-02-29T12:30:45.123Z".as_bytes()).unwrap();
    assert_eq!(f.fractional_nanos, 123_000_000);
    assert_eq!((f.year, f.month, f.day), (2024, 2, 29));
    assert_eq!(add_month_seconds(2024, 3) - add_month_seconds(2024, 2), 29 * 86_400);
}

#[test]
fn single_fraction_digit_is_padded() {
    assert_eq!(nanos("1970-01-01T00:00:00.5Z"), Ok(500_000_000));
}

#[test]
fn nine_fraction_digits_and_empty_fraction() {
    assert_eq!(nanos("1970-01-01T00:00:01.000000001Z"), Ok(1_000_000_001));
    assert_eq!(nanos("1970-01-01T00:00:01.Z"), Ok(1_000_000_000));
}

#[test]
fn later_instants_have_larger_counts() {
    let stamps = [
        "1970-01-01T00:00:00Z",
        "1970-01-01T00:00:00.000000001Z",
        "1971-12-31T23:59:59.999999999Z",
        "1972-02-29T00:00:00Z",
        "1999-12-31T23:59:59Z",
        "2000-01-01T00:00:00Z",
        "2000-02-29T23:59:59Z",
        "2023-12-31T23:59:59.999999999Z",
        "2024-01-01T00:00:00Z",
        "2100-02-28T23:59:59Z",
        "2100-03-01T00:00:00Z",
        "2400-02-29T00:00:00Z",
    ];
    for w in stamps.windows(2) {
        assert!(nanos(w[0]).unwrap() < nanos(w[1]).unwrap(), "{} vs {}", w[0], w[1]);
    }
}

#[test]
fn leap_rule_over_a_range() {
    for y in 1970u64..=3000 {
        let rule = y % 4 == 0 && (y % 100 != 0 || y % 400 == 0);
        assert_eq!(is_leap_year(y), rule, "year {}", y);
    }
    assert!(!is_leap_year(1900));
    assert!(!is_leap_year(2100));
    assert!(is_leap_year(2000));
    assert!(is_leap_year(2400));
}

#[test]
fn year_boundaries_follow_leap_rule() {
    for y in 1970u64..2554 {
        let len = add_year_to_second(0, y + 1) - add_year_to_second(0, y);
        let expected = if is_leap_year(y) { 366 * 86_400 } else { 365 * 86_400 };
        assert_eq!(len, expected, "year {}", y);
        assert_eq!(add_month_seconds(y, 12) + 31 * 86_400, expected, "year {}", y);
    }
}

#[test]
fn century_dates() {
    assert_eq!(nanos("2100-03-01T00:00:00Z"), Ok(4_107_542_400 * 1_000_000_000));
    assert_eq!(nanos("2000-03-01T00:00:00Z"), Ok(951_868_800 * 1_000_000_000));
    assert_eq!(nanos("2400-12-31T23:59:59Z"), Ok(13_601_087_999 * 1_000_000_000));
    assert_eq!(nanos("1999-12-31T23:59:59Z"), Ok(946_684_799 * 1_000_000_000));
}

#[test]
fn add_year_to_second_adds_to_its_argument() {
    assert_eq!(add_year_to_second(7, 1970), 7);
    assert_eq!(add_year_to_second(7, 1971), 7 + 31_536_000);
    assert_eq!(add_year_to_second(0, 2000), 946_684_800);
    assert_eq!(add_year_to_second(0, 2100), 4_102_444_800);
}

#[test]
fn block_steps() {
    assert_eq!(increment_year_and_timestamp(2399, 2000, 10, 100, 5), (2300, 10 + 3 * 5));
    assert_eq!(increment_year_and_timestamp(1975, 1972, 0, 4, 9), (1972, 0));
    assert_eq!(increment_leap_year(1990, 1988, 1), (1989, 1 + 31_536_000 + 86_400));
    assert_eq!(increment_leap_year(1990, 1989, 1), (1989, 1));
    assert_eq!(increment_leap_year(1988, 1988, 1), (1988, 1));
}

#[test]
fn month_table() {
    assert_eq!(add_month_seconds(2023, 1), 0);
    assert_eq!(add_month_seconds(2023, 3), 59 * 86_400);
    assert_eq!(add_month_seconds(2024, 3), 60 * 86_400);
    assert_eq!(add_month_seconds(2024, 12), 335 * 86_400);
    assert_eq!(month_length(2023, 2), 28);
    assert_eq!(month_length(2024, 2), 29);
    assert_eq!(month_length(2024, 4), 30);
    assert_eq!(month_length(2024, 12), 31);
}

#[test]
fn largest_representable_instant() {
    assert_eq!(nanos("2554-07-21T23:34:33.709551615Z"), Ok(u64::MAX));
    assert_eq!(nanos("2554-07-21T23:34:33.709551616Z"), Err(TimestampError::Overflow));
    assert_eq!(nanos("2555-01-01T00:00:00Z"), Err(TimestampError::Overflow));
    assert_eq!(nanos("9999-01-01T00:00:00Z"), Err(TimestampError::Overflow));
    assert_eq!(nanos("18446744073709551615-01-01T00:00:00Z"), Err(TimestampError::Overflow));
}

#[test]
fn missing_separator_is_rejected() {
    assert_eq!(
        nanos("2024-01-01 00:00:00Z"),
        malformed(Stage::DateTimeSeparator, Malformation::MissingSeparator)
    );
    assert_eq!(nanos(""), malformed(Stage::DateTimeSeparator, Malformation::MissingSeparator));
}

#[test]
fn missing_zone_is_rejected() {
    assert_eq!(nanos("2024-01-01T00:00:00"), malformed(Stage::Zone, Malformation::MissingZone));
    assert_eq!(nanos("2024-01-01T00:00:00.5"), malformed(Stage::Zone, Malformation::MissingZone));
    assert_eq!(nanos("2024-01-01T00:00:"), malformed(Stage::Zone, Malformation::MissingZone));
}

#[test]
fn non_numeric_fields_are_rejected() {
    assert_eq!(nanos("2024-ab-01T00:00:00Z"), malformed(Stage::Month, Malformation::NotAnInteger));
    assert_eq!(nanos("-01-01T00:00:00Z"), malformed(Stage::Year, Malformation::NotAnInteger));
    assert_eq!(nanos("2024-01-+1T00:00:00Z"), malformed(Stage::Day, Malformation::NotAnInteger));
    assert_eq!(nanos("2024-01-01Tx:00:00Z"), malformed(Stage::Hour, Malformation::NotAnInteger));
    assert_eq!(nanos("2024-01-01T00::00Z"), malformed(Stage::Minute, Malformation::NotAnInteger));
    assert_eq!(nanos("2024-01-01T00:00:0ZZ"), malformed(Stage::Second, Malformation::NotAnInteger));
    assert_eq!(nanos("2024-01-01T00:00:00.5aZ"), malformed(Stage::Fraction, Malformation::NotAnInteger));
    assert_eq!(nanos("2024-01-01T00:00:00.5.5Z"), malformed(Stage::Fraction, Malformation::NotAnInteger));
}

#[test]
fn long_fractions_are_rejected() {
    assert_eq!(
        nanos("2024-01-01T00:00:00.12345678901Z"),
        malformed(Stage::Fraction, Malformation::TooManyDigits)
    );
    assert_eq!(
        nanos("2024-01-01T00:00:00.1234567890Z"),
        malformed(Stage::Fraction, Malformation::TooManyDigits)
    );
}

#[test]
fn wrong_field_counts_are_rejected() {
    assert_eq!(nanos("2024-01T00:00:00Z"), malformed(Stage::Date, Malformation::WrongFieldCount));
    assert_eq!(nanos("2024T00:00:00Z"), malformed(Stage::Date, Malformation::WrongFieldCount));
    assert_eq!(nanos("2024-01-01-01T00:00:00Z"), malformed(Stage::Date, Malformation::WrongFieldCount));
    assert_eq!(nanos("2024-01-01T00:00Z"), malformed(Stage::Time, Malformation::WrongFieldCount));
    assert_eq!(nanos("2024-01-01T00Z"), malformed(Stage::Time, Malformation::WrongFieldCount));
    assert_eq!(nanos("2024-01-01T00:00:00:00Z"), malformed(Stage::Time, Malformation::WrongFieldCount));
}

#[test]
fn calendar_checks() {
    assert_eq!(nanos("1969-12-31T23:59:59Z"), Err(TimestampError::UnsupportedYear));
    assert_eq!(nanos("2023-02-29T00:00:00Z"), Err(TimestampError::InvalidCalendarDate));
    assert_eq!(nanos("2100-02-29T00:00:00Z"), Err(TimestampError::InvalidCalendarDate));
    assert_eq!(nanos("2024-13-01T00:00:00Z"), Err(TimestampError::InvalidCalendarDate));
    assert_eq!(nanos("2024-00-01T00:00:00Z"), Err(TimestampError::InvalidCalendarDate));
    assert_eq!(nanos("2024-04-31T00:00:00Z"), Err(TimestampError::InvalidCalendarDate));
    assert_eq!(nanos("2024-04-00T00:00:00Z"), Err(TimestampError::InvalidCalendarDate));
    assert_eq!(nanos("2024-04-01T24:00:00Z"), Err(TimestampError::InvalidTimeOfDay));
    assert_eq!(nanos("2024-04-01T00:60:00Z"), Err(TimestampError::InvalidTimeOfDay));
    assert_eq!(nanos("2024-04-01T00:00:60Z"), Err(TimestampError::InvalidTimeOfDay));
    assert_eq!(nanos("2023-03-01T00:00:00Z"), Ok(1_677_628_800 * 1_000_000_000));
}

#[test]
fn direct_field_conversion() {
    assert_eq!(convert_ymdhms_to_timestamp(1970, 1, 2, 0, 0, 1, 7), Ok(86_401_000_000_007));
    assert_eq!(
        convert_ymdhms_to_timestamp(1970, 1, 1, 0, 0, 0, 1_000_000_000),
        Err(TimestampError::InvalidTimeOfDay)
    );
}

#[test]
fn field_parsers() {
    assert_eq!(convert_date_string_to_ymd(b"2024-02-29"), Ok((2024, 2, 29)));
    assert_eq!(convert_date_string_to_ymd(b"0007-010-3"), Ok((7, 10, 3)));
    assert_eq!(split_time_int(b"12:30:45.123Z"), Ok((12, 30, 45, 123_000_000)));
    assert_eq!(split_time_int(b"01:02:03Z"), Ok((1, 2, 3, 0)));
    assert_eq!(
        split_time_int(b"01:02:03.Z1"),
        Err(TimestampError::MalformedTimestamp { stage: Stage::Zone, detail: Malformation::MissingZone })
    );
}
