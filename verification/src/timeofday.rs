//! Civil times of day, and the exact arithmetic relating a time of day to
//! its microsecond count since midnight.

use vstd::arithmetic::div_mod::lemma_div_denominator;
use vstd::arithmetic::div_mod::lemma_fundamental_div_mod;
use vstd::arithmetic::div_mod::lemma_fundamental_div_mod_converse;
use vstd::arithmetic::div_mod::lemma_mod_multiples_basic;
use vstd::prelude::*;

verus! {

/// Number of microseconds in one day.
pub const MICROS_PER_DAY: i64 = 86_400_000_000;

/// A civil time of day with nanosecond resolution.
///
/// The wire format carries whole microseconds only; a value whose
/// `subsec_nanosecond` is not a multiple of 1000 is representable here but
/// cannot be encoded without losing precision.
#[derive(Clone, Copy, PartialEq, Eq, Structural, Debug)]
pub struct Time {
    pub hour: u8,
    pub minute: u8,
    pub second: u8,
    pub subsec_nanosecond: u32,
}

/// Microseconds from midnight to `t`, discarding any sub-microsecond part.
/// This is the mathematical model of the wire encoding of a time of day.
pub open spec fn micros_of_time(t: Time) -> int {
    (t.hour * 3600 + t.minute * 60 + t.second) * 1_000_000 + t.subsec_nanosecond / 1000
}

impl Time {
    /// Well-formedness: a time of day on the 24-hour clock.
    pub open spec fn wf(self) -> bool {
        &&& self.hour < 24
        &&& self.minute < 60
        &&& self.second < 60
        &&& self.subsec_nanosecond < 1_000_000_000
    }

    /// Whether the value carries no sub-microsecond component, so that the
    /// wire format can hold it exactly.
    pub open spec fn whole_micros(self) -> bool {
        self.subsec_nanosecond % 1000 == 0
    }
}

/// A well-formed time of day lies strictly inside one day's microseconds.
pub proof fn lemma_micros_of_time_range(t: Time)
    requires
        t.wf(),
    ensures
        0 <= micros_of_time(t) < MICROS_PER_DAY,
{
    assert(t.subsec_nanosecond / 1000 <= 999_999 && t.subsec_nanosecond / 1000 >= 0) by {
        lemma_fundamental_div_mod(t.subsec_nanosecond as int, 1000);
    }
}

/// The microsecond count identifies a time of day uniquely, as long as the
/// value carries no sub-microsecond component that the count would discard.
pub proof fn lemma_micros_of_time_injective(t1: Time, t2: Time)
    requires
        t1.wf(),
        t1.whole_micros(),
        t2.wf(),
        t2.whole_micros(),
        micros_of_time(t1) == micros_of_time(t2),
    ensures
        t1 == t2,
{
    let s1 = t1.hour * 3600 + t1.minute * 60 + t1.second;
    let s2 = t2.hour * 3600 + t2.minute * 60 + t2.second;
    let u1 = t1.subsec_nanosecond as int / 1000;
    let u2 = t2.subsec_nanosecond as int / 1000;
    assert(0 <= u1 <= 999_999 && 0 <= u2 <= 999_999) by {
        lemma_fundamental_div_mod(t1.subsec_nanosecond as int, 1000);
        lemma_fundamental_div_mod(t2.subsec_nanosecond as int, 1000);
    }
    assert(s1 == s2 && u1 == u2) by {
        lemma_fundamental_div_mod_converse(s1 * 1_000_000 + u1, 1_000_000, s1, u1);
        lemma_fundamental_div_mod_converse(s2 * 1_000_000 + u2, 1_000_000, s2, u2);
    }
    assert(t1.subsec_nanosecond == 1000 * u1 + t1.subsec_nanosecond % 1000) by {
        lemma_fundamental_div_mod(t1.subsec_nanosecond as int, 1000);
    }
    assert(t2.subsec_nanosecond == 1000 * u2 + t2.subsec_nanosecond % 1000) by {
        lemma_fundamental_div_mod(t2.subsec_nanosecond as int, 1000);
    }
    assert(t1.hour == t2.hour && t1.minute == t2.minute && t1.second == t2.second) by {
        lemma_fundamental_div_mod_converse(
            s1 as int,
            60,
            t1.hour * 60 + t1.minute,
            t1.second as int,
        );
        lemma_fundamental_div_mod_converse(
            s2 as int,
            60,
            t2.hour * 60 + t2.minute,
            t2.second as int,
        );
        lemma_fundamental_div_mod_converse(
            t1.hour * 60 + t1.minute,
            60,
            t1.hour as int,
            t1.minute as int,
        );
        lemma_fundamental_div_mod_converse(
            t2.hour * 60 + t2.minute,
            60,
            t2.hour as int,
            t2.minute as int,
        );
    }
}

/// Microseconds from midnight to `t`, as exact integer arithmetic;
/// any sub-microsecond component is discarded, as `micros_of_time` says.
pub fn micros_from_midnight(t: &Time) -> (r: i64)
    requires
        t.wf(),
    ensures
        r as int == micros_of_time(*t),
        0 <= r < MICROS_PER_DAY,
{
    proof {
        lemma_micros_of_time_range(*t);
    }
    (t.hour as i64 * 3600 + t.minute as i64 * 60 + t.second as i64) * 1_000_000 + (
    t.subsec_nanosecond / 1000) as i64
}

/// The time of day `m` microseconds after midnight, for `m` within one day.
pub fn time_of_micros(m: i64) -> (r: Time)
    requires
        0 <= m < MICROS_PER_DAY,
    ensures
        r.wf(),
        r.whole_micros(),
        micros_of_time(r) == m,
{
    let total_seconds: u32 = (m / 1_000_000) as u32;
    let micro: u32 = (m % 1_000_000) as u32;
    proof {
        lemma_fundamental_div_mod(m as int, 1_000_000);
        lemma_fundamental_div_mod(total_seconds as int, 60);
        lemma_fundamental_div_mod(total_seconds as int / 60, 60);
        lemma_div_denominator(total_seconds as int, 60, 60);
        lemma_mod_multiples_basic(micro as int, 1000);
        assert(micro * 1000 / 1000 == micro) by {
            lemma_fundamental_div_mod_converse(micro * 1000, 1000, micro as int, 0);
        }
    }
    Time {
        hour: (total_seconds / 3600) as u8,
        minute: ((total_seconds / 60) % 60) as u8,
        second: (total_seconds % 60) as u8,
        subsec_nanosecond: micro * 1000,
    }
}

} // verus!
