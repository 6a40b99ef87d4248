//! Reads the records of a price oracle. Its core turns a UTC timestamp
//! `YYYY-MM-DDTHH:MM:SS[.F]Z` into nanoseconds since 1970-01-01T00:00:00Z
//! with integer calendar arithmetic alone, and reports every malformed or
//! out-of-range input as a typed error.

pub mod calendar;
pub mod digits;
pub mod error;
pub mod msgs;
pub mod query;
pub mod request;
pub mod timestamp;
