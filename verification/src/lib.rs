//! Codec between civil calendar values and the binary wire integers used by a
//! relational database for its temporal column types: plain dates, times of
//! day, naive timestamps, and timezone-aware timestamps.
//!
//! The wire format counts whole days (for dates) or microseconds (for times
//! and timestamps) from a fixed reference: midnight at the start of
//! 2000-01-01. Encoding and decoding are exact integer arithmetic over the
//! proleptic Gregorian calendar; nothing is rounded, clamped, or wrapped
//! silently, and every out-of-range or out-of-precision input surfaces as a
//! descriptive error value.

pub mod calendar;
pub mod codec;
pub mod timeofday;
