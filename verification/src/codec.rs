//! The four encode/decode pairs between calendar values and the database's
//! wire integers, together with the error taxonomy and the round-trip laws.
//!
//! Wire format: a date is a signed 32-bit day count from 2000-01-01; a time
//! of day is a signed 64-bit microsecond count since midnight; a naive
//! timestamp is a signed 64-bit microsecond count from 2000-01-01T00:00:00;
//! a timezone-aware timestamp is the same count for the UTC-normalized
//! instant, with no zone transmitted.

use crate::calendar::Date;
use crate::calendar::date_of_day_number;
use crate::calendar::day_number;
use crate::calendar::days_from_epoch;
use crate::calendar::lemma_day_number_bounds;
use crate::calendar::lemma_day_number_injective;
use crate::calendar::max_epoch_day;
use crate::calendar::min_epoch_day;
use crate::timeofday::MICROS_PER_DAY;
use crate::timeofday::Time;
use crate::timeofday::lemma_micros_of_time_injective;
use crate::timeofday::lemma_micros_of_time_range;
use crate::timeofday::micros_from_midnight;
use crate::timeofday::micros_of_time;
use crate::timeofday::time_of_micros;
use vstd::arithmetic::div_mod::lemma_fundamental_div_mod;
use vstd::arithmetic::div_mod::lemma_fundamental_div_mod_converse;
use vstd::prelude::*;

verus! {

/// A failure of a single encode or decode call.
///
/// Each variant carries the offending value, so that a caller can render a
/// diagnostic without re-deriving it.
#[derive(Clone, Copy, PartialEq, Eq, Structural, Debug)]
pub enum CodecError {
    /// The input value, expressed relative to the wire epoch, does not fit
    /// the wire integer width, or carries precision the wire format cannot
    /// hold. Within the supported calendar range every offset fits the wire
    /// width (that is proved), so the one reachable cause is a
    /// sub-microsecond component, carried here.
    EncodingOverflow { subsec_nanosecond: u32 },
    /// The wire integer, applied as an offset to the epoch, falls outside
    /// the representable domain of the target calendar or time type.
    DecodingOverflow { offset: i64 },
    /// A decoded naive value could not be expressed in the UTC zone.
    /// Defensive: proved unreachable for UTC, but checked rather than
    /// assumed away.
    TimezoneAttachment { offset: i64 },
}

/// A naive date and time: a civil date with a time of day and no zone.
#[derive(Clone, Copy, PartialEq, Eq, Structural, Debug)]
pub struct DateTime {
    pub date: Date,
    pub time: Time,
}

impl DateTime {
    /// Well-formedness: both halves are well-formed.
    pub open spec fn wf(self) -> bool {
        self.date.wf() && self.time.wf()
    }
}

/// Signed count of microseconds from the reference instant
/// 2000-01-01T00:00:00 to `dt`, discarding any sub-microsecond part.
/// This is the mathematical model of the wire encoding of a timestamp.
pub open spec fn timestamp_micros(dt: DateTime) -> int {
    day_number(dt.date) * (MICROS_PER_DAY as int) + micros_of_time(dt.time)
}

/// Microsecond count of the earliest representable instant,
/// -9999-01-01T00:00:00.
pub open spec fn min_timestamp_micros() -> int {
    min_epoch_day() * (MICROS_PER_DAY as int)
}

/// Microsecond count of the latest representable instant,
/// 9999-12-31T23:59:59.999999.
pub open spec fn max_timestamp_micros() -> int {
    max_epoch_day() * (MICROS_PER_DAY as int) + (MICROS_PER_DAY - 1)
}

/// Encode a date as its signed day count from 2000-01-01.
///
/// Every well-formed date's count fits the 32-bit wire width — the
/// supported calendar range is far smaller than the wire range, and the
/// bound is proved — so encoding always succeeds.
pub fn encode_date(d: &Date) -> (r: Result<i32, CodecError>)
    requires
        d.wf(),
    ensures
        r matches Ok(w) && w == day_number(*d),
{
    Ok(days_from_epoch(d))
}

/// Decode a signed day count into the date that many whole days from
/// 2000-01-01. Exactly the counts of the representable dates succeed; any
/// other count is a `DecodingOverflow` carrying the offending offset.
pub fn decode_date(wire: i32) -> (r: Result<Date, CodecError>)
    ensures
        min_epoch_day() <= wire <= max_epoch_day() ==> (r matches Ok(d) && d.wf() && day_number(d)
            == wire),
        !(min_epoch_day() <= wire <= max_epoch_day()) ==> r == Err::<Date, CodecError>(
            (CodecError::DecodingOverflow { offset: wire as i64 }),
        ),
{
    let lo: i32 = days_from_epoch(&Date { year: crate::calendar::MIN_YEAR, month: 1, day: 1 });
    let hi: i32 = days_from_epoch(&Date { year: crate::calendar::MAX_YEAR, month: 12, day: 31 });
    if wire < lo || wire > hi {
        Err(CodecError::DecodingOverflow { offset: wire as i64 })
    } else {
        Ok(date_of_day_number(wire))
    }
}

/// Encode a time of day as its microsecond count since midnight.
///
/// The count is computed exactly; a value with a sub-microsecond component
/// cannot be carried by the wire format and is an `EncodingOverflow`.
pub fn encode_time(t: &Time) -> (r: Result<i64, CodecError>)
    requires
        t.wf(),
    ensures
        t.whole_micros() ==> (r matches Ok(w) && w == micros_of_time(*t) && 0 <= w
            < MICROS_PER_DAY),
        !t.whole_micros() ==> r == Err::<i64, CodecError>(
            (CodecError::EncodingOverflow { subsec_nanosecond: t.subsec_nanosecond }),
        ),
{
    if t.subsec_nanosecond % 1000 != 0 {
        Err(CodecError::EncodingOverflow { subsec_nanosecond: t.subsec_nanosecond })
    } else {
        Ok(micros_from_midnight(t))
    }
}

/// Decode a microsecond count since midnight into a time of day.
///
/// A count within `[0, MICROS_PER_DAY)` maps to the time of day that many
/// microseconds after midnight. A count outside that range is still
/// decoded — a deliberate, documented boundary policy: it wraps around the
/// clock, as time-of-day addition does, so the result is the count's
/// Euclidean remainder by one day. Decoding never fails.
pub fn decode_time(wire: i64) -> (r: Result<Time, CodecError>)
    ensures
        r matches Ok(t) && t.wf() && t.whole_micros() && micros_of_time(t) == (wire as int) % (
        MICROS_PER_DAY as int),
{
    let m: i64 = euclid_rem_day(wire);
    Ok(time_of_micros(m))
}

/// Euclidean remainder of `wire` by one day's microseconds, computed on
/// magnitudes so that every intermediate stays in range even at `i64::MIN`.
fn euclid_rem_day(wire: i64) -> (r: i64)
    ensures
        r as int == (wire as int) % (MICROS_PER_DAY as int),
        0 <= r < MICROS_PER_DAY,
{
    let c: u64 = MICROS_PER_DAY as u64;
    if wire >= 0 {
        let r: u64 = (wire as u64) % c;
        r as i64
    } else {
        let p: u64 = ((-(wire + 1)) as u64) + 1;
        let pq: u64 = p / c;
        let pr: u64 = p % c;
        proof {
            lemma_fundamental_div_mod(p as int, c as int);
            if pr == 0 {
                lemma_fundamental_div_mod_converse(
                    wire as int,
                    c as int,
                    -(pq as int),
                    0,
                );
            } else {
                lemma_fundamental_div_mod_converse(
                    wire as int,
                    c as int,
                    -(pq as int) - 1,
                    c - pr,
                );
            }
        }
        if pr == 0 {
            0
        } else {
            (c - pr) as i64
        }
    }
}

/// Floor division and Euclidean remainder of `wire` by one day's
/// microseconds: the day the instant falls in, and the microsecond of that
/// day.
fn split_wire_micros(wire: i64) -> (r: (i64, i64))
    ensures
        r.0 as int == (wire as int) / (MICROS_PER_DAY as int),
        r.1 as int == (wire as int) % (MICROS_PER_DAY as int),
        wire as int == r.0 * (MICROS_PER_DAY as int) + r.1,
        0 <= r.1 < MICROS_PER_DAY,
{
    let c: u64 = MICROS_PER_DAY as u64;
    if wire >= 0 {
        let q: u64 = (wire as u64) / c;
        let r: u64 = (wire as u64) % c;
        proof {
            lemma_fundamental_div_mod(wire as int, c as int);
        }
        (q as i64, r as i64)
    } else {
        let p: u64 = ((-(wire + 1)) as u64) + 1;
        let pq: u64 = p / c;
        let pr: u64 = p % c;
        proof {
            lemma_fundamental_div_mod(p as int, c as int);
            if pr == 0 {
                lemma_fundamental_div_mod_converse(
                    wire as int,
                    c as int,
                    -(pq as int),
                    0,
                );
            } else {
                lemma_fundamental_div_mod_converse(
                    wire as int,
                    c as int,
                    -(pq as int) - 1,
                    c - pr,
                );
            }
        }
        if pr == 0 {
            (-(pq as i64), 0)
        } else {
            (-(pq as i64) - 1, (c - pr) as i64)
        }
    }
}

/// Encode a naive date and time as its signed microsecond count from the
/// reference instant. Within the supported calendar range the count always
/// fits the 64-bit wire width (proved); the one failure is a
/// sub-microsecond component, which the wire format cannot carry.
pub fn encode_timestamp(dt: &DateTime) -> (r: Result<i64, CodecError>)
    requires
        dt.wf(),
    ensures
        dt.time.whole_micros() ==> (r matches Ok(w) && w == timestamp_micros(*dt)),
        !dt.time.whole_micros() ==> r == Err::<i64, CodecError>(
            (CodecError::EncodingOverflow { subsec_nanosecond: dt.time.subsec_nanosecond }),
        ),
{
    if dt.time.subsec_nanosecond % 1000 != 0 {
        Err(CodecError::EncodingOverflow { subsec_nanosecond: dt.time.subsec_nanosecond })
    } else {
        proof {
            lemma_day_number_bounds(dt.date);
        }
        let day: i32 = days_from_epoch(&dt.date);
        let tm: i64 = micros_from_midnight(&dt.time);
        Ok(day as i64 * MICROS_PER_DAY + tm)
    }
}

/// Decode a signed microsecond count from the reference instant into a
/// naive date and time. Exactly the counts of representable instants
/// succeed; any other count is a `DecodingOverflow` carrying the offset.
pub fn decode_timestamp(wire: i64) -> (r: Result<DateTime, CodecError>)
    ensures
        min_timestamp_micros() <= wire <= max_timestamp_micros() ==> (r matches Ok(dt) && dt.wf()
            && dt.time.whole_micros() && timestamp_micros(dt) == wire),
        !(min_timestamp_micros() <= wire <= max_timestamp_micros()) ==> r == Err::<
            DateTime,
            CodecError,
        >((CodecError::DecodingOverflow { offset: wire })),
{
    let lo_day: i32 = days_from_epoch(&Date { year: crate::calendar::MIN_YEAR, month: 1, day: 1 });
    let hi_day: i32 = days_from_epoch(
        &Date { year: crate::calendar::MAX_YEAR, month: 12, day: 31 },
    );
    proof {
        lemma_day_number_bounds(Date { year: crate::calendar::MIN_YEAR, month: 1, day: 1 });
    }
    let lo: i64 = lo_day as i64 * MICROS_PER_DAY;
    let hi: i64 = hi_day as i64 * MICROS_PER_DAY + (MICROS_PER_DAY - 1);
    if wire < lo || wire > hi {
        Err(CodecError::DecodingOverflow { offset: wire })
    } else {
        let (day, m): (i64, i64) = split_wire_micros(wire);
        proof {
            assert(lo_day <= day <= hi_day);
        }
        let date: Date = date_of_day_number(day as i32);
        let time: Time = time_of_micros(m);
        Ok(DateTime { date, time })
    }
}

/// Largest magnitude of a fixed zone offset, in seconds: 25:59:59 east or
/// west of UTC.
pub const MAX_OFFSET_SECONDS: i32 = 93_599;

/// A zoned instant: a civil date and time as read on a clock at a fixed
/// offset from UTC (offset 0 is UTC itself).
///
/// Two values with different offsets can denote the same instant; the
/// codec normalizes to UTC, so both encode identically.
#[derive(Clone, Copy, PartialEq, Eq, Structural, Debug)]
pub struct Zoned {
    pub datetime: DateTime,
    pub offset_seconds: i32,
}

/// The UTC-normalized microsecond count of the instant `z` denotes: its
/// local clock reading, shifted back by its offset from UTC.
pub open spec fn instant_micros(z: Zoned) -> int {
    timestamp_micros(z.datetime) - z.offset_seconds * 1_000_000
}

impl Zoned {
    /// Well-formedness: the local reading is well-formed, the offset is a
    /// fixed offset within a day's reach of UTC, and the instant itself is
    /// representable (its UTC reading stays inside the calendar range).
    pub open spec fn wf(self) -> bool {
        &&& self.datetime.wf()
        &&& -MAX_OFFSET_SECONDS <= self.offset_seconds <= MAX_OFFSET_SECONDS
        &&& min_timestamp_micros() <= instant_micros(self) <= max_timestamp_micros()
    }

    /// Attach a fixed offset to a local date and time, checking that the
    /// result denotes a representable instant. Succeeds exactly when the
    /// offset is a legal fixed offset and the UTC reading of the instant
    /// stays inside the calendar range.
    pub fn new(datetime: DateTime, offset_seconds: i32) -> (r: Option<Zoned>)
        requires
            datetime.wf(),
        ensures
            (-MAX_OFFSET_SECONDS <= offset_seconds <= MAX_OFFSET_SECONDS
                && min_timestamp_micros() <= timestamp_micros(datetime) - offset_seconds
                * 1_000_000 <= max_timestamp_micros()) ==> r == Some(
                Zoned { datetime, offset_seconds },
            ),
            !(-MAX_OFFSET_SECONDS <= offset_seconds <= MAX_OFFSET_SECONDS
                && min_timestamp_micros() <= timestamp_micros(datetime) - offset_seconds
                * 1_000_000 <= max_timestamp_micros()) ==> r == None::<Zoned>,
    {
        if offset_seconds < -MAX_OFFSET_SECONDS || offset_seconds > MAX_OFFSET_SECONDS {
            return None;
        }
        proof {
            lemma_day_number_bounds(datetime.date);
            lemma_micros_of_time_range(datetime.time);
        }
        let day: i32 = days_from_epoch(&datetime.date);
        let tm: i64 = micros_from_midnight(&datetime.time);
        let naive: i64 = day as i64 * MICROS_PER_DAY + tm;
        let instant: i64 = naive - offset_seconds as i64 * 1_000_000;
        let lo_day: i32 = days_from_epoch(
            &Date { year: crate::calendar::MIN_YEAR, month: 1, day: 1 },
        );
        let hi_day: i32 = days_from_epoch(
            &Date { year: crate::calendar::MAX_YEAR, month: 12, day: 31 },
        );
        if instant < lo_day as i64 * MICROS_PER_DAY || instant > hi_day as i64 * MICROS_PER_DAY + (
        MICROS_PER_DAY - 1) {
            return None;
        }
        Some(Zoned { datetime, offset_seconds })
    }
}

/// Encode a zoned instant: normalize to UTC — which changes the displayed
/// offset, never the instant — and encode the naive UTC reading. Distinct
/// zoned representations of one instant encode identically. The one
/// failure is a sub-microsecond component.
pub fn encode_timestamptz(z: &Zoned) -> (r: Result<i64, CodecError>)
    requires
        z.wf(),
    ensures
        z.datetime.time.whole_micros() ==> (r matches Ok(w) && w == instant_micros(*z)),
        !z.datetime.time.whole_micros() ==> r == Err::<i64, CodecError>(
            (CodecError::EncodingOverflow { subsec_nanosecond: z.datetime.time.subsec_nanosecond }),
        ),
{
    if z.datetime.time.subsec_nanosecond % 1000 != 0 {
        return Err(
            CodecError::EncodingOverflow { subsec_nanosecond: z.datetime.time.subsec_nanosecond },
        );
    }
    proof {
        lemma_day_number_bounds(z.datetime.date);
    }
    let day: i32 = days_from_epoch(&z.datetime.date);
    let tm: i64 = micros_from_midnight(&z.datetime.time);
    let naive: i64 = day as i64 * MICROS_PER_DAY + tm;
    Ok(naive - z.offset_seconds as i64 * 1_000_000)
}

/// Decode a wire timestamp into a zoned instant: decode the naive UTC
/// reading, then attach the UTC zone. The attachment is checked, not
/// assumed — it is the last line of defense against a decode that produced
/// an invalid naive value — though for UTC it is proved to succeed.
/// Exactly the counts of representable instants decode; any other count is
/// a `DecodingOverflow` carrying the offset.
pub fn decode_timestamptz(wire: i64) -> (r: Result<Zoned, CodecError>)
    ensures
        min_timestamp_micros() <= wire <= max_timestamp_micros() ==> (r matches Ok(z) && z.wf()
            && z.offset_seconds == 0 && z.datetime.time.whole_micros() && instant_micros(z)
            == wire),
        !(min_timestamp_micros() <= wire <= max_timestamp_micros()) ==> r == Err::<
            Zoned,
            CodecError,
        >((CodecError::DecodingOverflow { offset: wire })),
{
    match decode_timestamp(wire) {
        Ok(dt) => match Zoned::new(dt, 0) {
            Some(z) => Ok(z),
            None => Err(CodecError::TimezoneAttachment { offset: wire }),
        },
        Err(e) => Err(e),
    }
}

/// Round trip for dates: every well-formed date's day count is itself a
/// decodable count — even many millennia from the epoch — and only the
/// original date carries it, so `decode_date` after `encode_date` gives
/// back exactly the encoded date.
pub proof fn lemma_date_round_trip(d: Date, decoded: Date)
    requires
        d.wf(),
        decoded.wf(),
        day_number(decoded) == day_number(d),
    ensures
        decoded == d,
        min_epoch_day() <= day_number(d) <= max_epoch_day(),
{
    lemma_day_number_bounds(d);
    lemma_day_number_injective(d, decoded);
}

/// Round trip for times of day: a whole-microsecond time's count is within
/// one day, so decoding does not wrap, and only the original time carries
/// that count; `decode_time` after `encode_time` gives back exactly the
/// encoded time.
pub proof fn lemma_time_round_trip(t: Time, decoded: Time)
    requires
        t.wf(),
        t.whole_micros(),
        decoded.wf(),
        decoded.whole_micros(),
        micros_of_time(decoded) == micros_of_time(t) % (MICROS_PER_DAY as int),
    ensures
        decoded == t,
        micros_of_time(t) % (MICROS_PER_DAY as int) == micros_of_time(t),
{
    lemma_micros_of_time_range(t);
    lemma_fundamental_div_mod_converse(
        micros_of_time(t),
        MICROS_PER_DAY as int,
        0,
        micros_of_time(t),
    );
    lemma_micros_of_time_injective(t, decoded);
}

/// The microsecond count from the reference instant identifies a
/// whole-microsecond date and time uniquely: the day count and the
/// microsecond of the day are its quotient and remainder by one day.
pub proof fn lemma_timestamp_micros_injective(a: DateTime, b: DateTime)
    requires
        a.wf(),
        a.time.whole_micros(),
        b.wf(),
        b.time.whole_micros(),
        timestamp_micros(a) == timestamp_micros(b),
    ensures
        a == b,
{
    lemma_micros_of_time_range(a.time);
    lemma_micros_of_time_range(b.time);
    lemma_fundamental_div_mod_converse(
        timestamp_micros(a),
        MICROS_PER_DAY as int,
        day_number(a.date),
        micros_of_time(a.time),
    );
    lemma_fundamental_div_mod_converse(
        timestamp_micros(b),
        MICROS_PER_DAY as int,
        day_number(b.date),
        micros_of_time(b.time),
    );
    lemma_day_number_injective(a.date, b.date);
    lemma_micros_of_time_injective(a.time, b.time);
}

/// Round trip for naive timestamps: every well-formed whole-microsecond
/// date and time has a representable count, and only it carries that
/// count; `decode_timestamp` after `encode_timestamp` gives back exactly
/// the encoded value.
pub proof fn lemma_timestamp_round_trip(dt: DateTime, decoded: DateTime)
    requires
        dt.wf(),
        dt.time.whole_micros(),
        decoded.wf(),
        decoded.time.whole_micros(),
        timestamp_micros(decoded) == timestamp_micros(dt),
    ensures
        decoded == dt,
        min_timestamp_micros() <= timestamp_micros(dt) <= max_timestamp_micros(),
{
    lemma_day_number_bounds(dt.date);
    lemma_micros_of_time_range(dt.time);
    lemma_timestamp_micros_injective(dt, decoded);
}

/// Zone canonicalization: shifting a zoned value's clock reading and its
/// offset by the same amount leaves the denoted instant — and with it the
/// wire timestamp that `encode_timestamptz` returns — unchanged. The same
/// instant read in UTC and at a fixed offset encodes identically.
pub proof fn lemma_zone_canonicalization(a: Zoned, b: Zoned)
    requires
        a.wf(),
        b.wf(),
        timestamp_micros(b.datetime) == timestamp_micros(a.datetime) + (b.offset_seconds
            - a.offset_seconds) * 1_000_000,
    ensures
        instant_micros(b) == instant_micros(a),
{
}

/// Round trip for zoned instants, after UTC normalization: the encoder's
/// wire count is representable, decoding it yields the same instant read
/// in UTC, and a value that already reads in UTC comes back unchanged.
pub proof fn lemma_timestamptz_round_trip(z: Zoned, decoded: Zoned)
    requires
        z.wf(),
        z.datetime.time.whole_micros(),
        decoded.wf(),
        decoded.offset_seconds == 0,
        decoded.datetime.time.whole_micros(),
        instant_micros(decoded) == instant_micros(z),
    ensures
        timestamp_micros(decoded.datetime) == instant_micros(z),
        min_timestamp_micros() <= instant_micros(z) <= max_timestamp_micros(),
        z.offset_seconds == 0 ==> decoded == z,
{
    if z.offset_seconds == 0 {
        lemma_timestamp_micros_injective(z.datetime, decoded.datetime);
    }
}

} // verus!
