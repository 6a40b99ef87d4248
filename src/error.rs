use vstd::prelude::*;

verus! {

/// The part of a timestamp string in which a malformation was found.
#[derive(Clone, Copy, Debug, PartialEq, Eq, Structural)]
pub enum Stage {
    DateTimeSeparator,
    Date,
    Time,
    Year,
    Month,
    Day,
    Hour,
    Minute,
    Second,
    Fraction,
    Zone,
}

/// What was wrong with the segment.
#[derive(Clone, Copy, Debug, PartialEq, Eq, Structural)]
pub enum Malformation {
    /// A required separator does not occur.
    MissingSeparator,
    /// The segment does not split into the expected number of fields.
    WrongFieldCount,
    /// The field is not a run of decimal digits that fits in 64 bits.
    NotAnInteger,
    /// The fractional seconds have more than nine digits.
    TooManyDigits,
    /// The string does not end with the UTC designator `Z`.
    MissingZone,
}

/// Why a timestamp string could not be converted.
#[derive(Clone, Copy, Debug, PartialEq, Eq, Structural)]
pub enum TimestampError {
    MalformedTimestamp { stage: Stage, detail: Malformation },
    /// The year lies before 1970.
    UnsupportedYear,
    /// The month is not in 1..=12, or the day does not exist in that month.
    InvalidCalendarDate,
    /// The hour, minute, second or fraction is out of its range.
    InvalidTimeOfDay,
    /// The nanosecond count does not fit in 64 bits.
    Overflow,
}

} // verus!
