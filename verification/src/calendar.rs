//! Civil dates in the proleptic Gregorian calendar, and the exact arithmetic
//! that relates a date to its signed day count from the reference date
//! 2000-01-01.

use vstd::arithmetic::div_mod::lemma_mod_multiples_vanish;
use vstd::prelude::*;

verus! {

/// The calendar year of the reference date.
pub const EPOCH_YEAR: i16 = 2000;

/// Smallest representable calendar year.
pub const MIN_YEAR: i16 = -9999;

/// Largest representable calendar year.
pub const MAX_YEAR: i16 = 9999;

/// A civil date in the proleptic Gregorian calendar.
///
/// Well-formed values (see [`Date::wf`]) lie between year -9999 and year
/// 9999 inclusive, with a month and day that exist in that calendar.
#[derive(Clone, Copy, PartialEq, Eq, Structural, Debug)]
pub struct Date {
    pub year: i16,
    pub month: u8,
    pub day: u8,
}

/// Whether `y` is a leap year in the proleptic Gregorian calendar.
pub open spec fn is_leap_year(y: int) -> bool {
    (y % 4 == 0 && y % 100 != 0) || y % 400 == 0
}

/// Number of days in year `y`.
pub open spec fn days_in_year(y: int) -> int {
    if is_leap_year(y) {
        366
    } else {
        365
    }
}

/// Number of days in month `m` of year `y`, for `1 <= m <= 12`.
pub open spec fn days_in_month(y: int, m: int) -> int {
    if m == 2 {
        if is_leap_year(y) {
            29
        } else {
            28
        }
    } else if m == 4 || m == 6 || m == 9 || m == 11 {
        30
    } else {
        31
    }
}

/// Number of days of year `y` that precede the first day of month `m`.
pub open spec fn days_before_month(y: int, m: int) -> int
    decreases m,
{
    if m <= 1 {
        0
    } else {
        days_before_month(y, m - 1) + days_in_month(y, m - 1)
    }
}

/// Signed count of days from 2000-01-01 to the first day of year `y`
/// (negative for years before 2000).
pub open spec fn days_before_year(y: int) -> int
    decreases (if y >= 2000 { y - 2000 } else { 2000 - y }),
{
    if y > 2000 {
        days_before_year(y - 1) + days_in_year(y - 1)
    } else if y < 2000 {
        days_before_year(y + 1) - days_in_year(y)
    } else {
        0
    }
}

/// Signed count of days from the reference date 2000-01-01 to `d`.
/// This is the mathematical model of the wire encoding of a date.
pub open spec fn day_number(d: Date) -> int {
    days_before_year(d.year as int) + days_before_month(d.year as int, d.month as int) + d.day - 1
}

impl Date {
    /// Well-formedness: the date exists in the proleptic Gregorian calendar
    /// and lies within the supported year range.
    pub open spec fn wf(self) -> bool {
        &&& MIN_YEAR <= self.year <= MAX_YEAR
        &&& 1 <= self.month <= 12
        &&& 1 <= self.day <= days_in_month(self.year as int, self.month as int)
    }
}

/// Day count of the earliest representable date, -9999-01-01.
pub open spec fn min_epoch_day() -> int {
    day_number(Date { year: MIN_YEAR, month: 1, day: 1 })
}

/// Day count of the latest representable date, 9999-12-31.
pub open spec fn max_epoch_day() -> int {
    day_number(Date { year: MAX_YEAR, month: 12, day: 31 })
}

/// The days that precede month `m1` also precede month `m2` when
/// `m1 <= m2`; months contribute their lengths in order.
pub proof fn lemma_days_before_month_monotone(y: int, m1: int, m2: int)
    requires
        1 <= m1 <= m2 <= 13,
    ensures
        days_before_month(y, m1) <= days_before_month(y, m2),
    decreases m2 - m1,
{
    if m1 < m2 {
        lemma_days_before_month_monotone(y, m1, m2 - 1);
    }
}

/// A year's twelve months together hold exactly the year's days.
pub proof fn lemma_days_before_month_full_year(y: int)
    ensures
        days_before_month(y, 13) == days_in_year(y),
{
    reveal_with_fuel(days_before_month, 13);
}

/// A later year's first day has a strictly larger day count; the gap grows
/// by at least 365 and at most 366 days per year.
pub proof fn lemma_days_before_year_bound(y1: int, y2: int)
    requires
        y1 <= y2,
    ensures
        365 * (y2 - y1) <= days_before_year(y2) - days_before_year(y1) <= 366 * (y2 - y1),
    decreases y2 - y1,
{
    if y1 < y2 {
        lemma_days_before_year_bound(y1, y2 - 1);
        assert(days_before_year(y2) == days_before_year(y2 - 1) + days_in_year(y2 - 1));
    }
}

/// Within its year, a well-formed date's day count lies between the year's
/// first day and its last.
pub proof fn lemma_day_number_within_year(d: Date)
    requires
        d.wf(),
    ensures
        days_before_year(d.year as int) <= day_number(d) < days_before_year(d.year as int)
            + days_in_year(d.year as int),
{
    lemma_days_before_month_monotone(d.year as int, 1, d.month as int);
    lemma_days_before_month_monotone(d.year as int, d.month as int + 1, 13);
    lemma_days_before_month_full_year(d.year as int);
    assert(days_before_month(d.year as int, d.month as int + 1) == days_before_month(
        d.year as int,
        d.month as int,
    ) + days_in_month(d.year as int, d.month as int));
}

/// Every well-formed date's day count lies between those of the extreme
/// representable dates, and both extremes are modest numbers: the whole
/// supported calendar fits comfortably in the 32-bit wire width.
pub proof fn lemma_day_number_bounds(d: Date)
    requires
        d.wf(),
    ensures
        min_epoch_day() <= day_number(d) <= max_epoch_day(),
        -4_400_000 < min_epoch_day() < 0,
        0 < max_epoch_day() < 3_000_000,
{
    let y = d.year as int;
    lemma_day_number_within_year(d);
    lemma_day_number_within_year(Date { year: MIN_YEAR, month: 1, day: 1 });
    lemma_day_number_within_year(Date { year: MAX_YEAR, month: 12, day: 31 });
    lemma_days_before_month_full_year(MAX_YEAR as int);
    lemma_days_before_month_monotone(MAX_YEAR as int, 12, 13);
    assert(days_before_month(MAX_YEAR as int, 13) == days_before_month(MAX_YEAR as int, 12)
        + days_in_month(MAX_YEAR as int, 12));
    assert(max_epoch_day() == days_before_year(10000) - 1);
    lemma_days_before_year_bound(MIN_YEAR as int, y);
    lemma_days_before_year_bound(y + 1, 10000);
    lemma_days_before_year_bound(y, y + 1);
    lemma_days_before_year_bound(MIN_YEAR as int, 2000);
    lemma_days_before_year_bound(2000, 10000);
}

/// The day count identifies a well-formed date uniquely: two dates with the
/// same signed day count from the reference date are the same date.
pub proof fn lemma_day_number_injective(d1: Date, d2: Date)
    requires
        d1.wf(),
        d2.wf(),
        day_number(d1) == day_number(d2),
    ensures
        d1 == d2,
{
    let y1 = d1.year as int;
    let y2 = d2.year as int;
    lemma_day_number_within_year(d1);
    lemma_day_number_within_year(d2);
    if y1 < y2 {
        lemma_days_before_year_bound(y1 + 1, y2);
        assert(days_before_year(y1 + 1) == days_before_year(y1) + days_in_year(y1));
        assert(false);
    }
    if y2 < y1 {
        lemma_days_before_year_bound(y2 + 1, y1);
        assert(days_before_year(y2 + 1) == days_before_year(y2) + days_in_year(y2));
        assert(false);
    }
    let m1 = d1.month as int;
    let m2 = d2.month as int;
    if m1 < m2 {
        lemma_days_before_month_monotone(y1, m1 + 1, m2);
        assert(days_before_month(y1, m1 + 1) == days_before_month(y1, m1) + days_in_month(
            y1,
            m1,
        ));
        assert(false);
    }
    if m2 < m1 {
        lemma_days_before_month_monotone(y1, m2 + 1, m1);
        assert(days_before_month(y1, m2 + 1) == days_before_month(y1, m2) + days_in_month(
            y1,
            m2,
        ));
        assert(false);
    }
}

/// Whether `y` is a leap year.
///
/// Shifting the year by 10000 (a multiple of 400) keeps every divisibility
/// test intact while keeping the executable arithmetic non-negative.
pub fn is_leap_year_exec(y: i16) -> (r: bool)
    requires
        MIN_YEAR <= y <= MAX_YEAR,
    ensures
        r == is_leap_year(y as int),
{
    let z: i32 = y as i32 + 10000;
    proof {
        lemma_mod_multiples_vanish(2500, y as int, 4);
        lemma_mod_multiples_vanish(100, y as int, 100);
        lemma_mod_multiples_vanish(25, y as int, 400);
    }
    (z % 4 == 0 && z % 100 != 0) || z % 400 == 0
}

/// Number of days in year `y`.
pub fn days_in_year_exec(y: i16) -> (r: u16)
    requires
        MIN_YEAR <= y <= MAX_YEAR,
    ensures
        r as int == days_in_year(y as int),
{
    if is_leap_year_exec(y) {
        366
    } else {
        365
    }
}

/// Signed count of days from the reference date 2000-01-01 to `d`,
/// computed by exact integer arithmetic: whole years first, then whole
/// months, then the day of the month.
pub fn days_from_epoch(d: &Date) -> (r: i32)
    requires
        d.wf(),
    ensures
        r as int == day_number(*d),
        min_epoch_day() <= r as int <= max_epoch_day(),
{
    let mut year: i16 = EPOCH_YEAR;
    let mut acc: i32 = 0;
    if d.year >= EPOCH_YEAR {
        while year < d.year
            invariant
                EPOCH_YEAR <= year <= d.year <= MAX_YEAR,
                acc as int == days_before_year(year as int),
            decreases d.year - year,
        {
            proof {
                lemma_days_before_year_bound(2000, year as int);
            }
            acc = acc + days_in_year_exec(year) as i32;
            year = year + 1;
        }
    } else {
        while year > d.year
            invariant
                MIN_YEAR <= d.year <= year <= EPOCH_YEAR,
                acc as int == days_before_year(year as int),
            decreases year - d.year,
        {
            proof {
                lemma_days_before_year_bound(year as int - 1, 2000);
            }
            year = year - 1;
            acc = acc - days_in_year_exec(year) as i32;
        }
    }
    let mut month: u8 = 1;
    while month < d.month
        invariant
            d.wf(),
            1 <= month <= d.month,
            acc as int == days_before_year(d.year as int) + days_before_month(
                d.year as int,
                month as int,
            ),
        decreases d.month - month,
    {
        proof {
            lemma_days_before_year_bound(MIN_YEAR as int, d.year as int);
            lemma_days_before_year_bound(MIN_YEAR as int, 2000);
            if d.year >= EPOCH_YEAR {
                lemma_days_before_year_bound(2000, d.year as int);
            } else {
                lemma_days_before_year_bound(d.year as int, 2000);
            }
            lemma_days_before_month_monotone(d.year as int, 1, month as int);
            lemma_days_before_month_monotone(d.year as int, month as int, 13);
            lemma_days_before_month_full_year(d.year as int);
        }
        acc = acc + days_in_month_exec(d.year, month) as i32;
        month = month + 1;
    }
    proof {
        lemma_day_number_bounds(*d);
        lemma_days_before_month_monotone(d.year as int, 1, d.month as int);
    }
    acc + (d.day as i32 - 1)
}

/// The well-formed date whose signed day count from the reference date is
/// `days`, found by stepping whole years and then whole months off the
/// count. The caller guarantees that such a date exists.
pub fn date_of_day_number(days: i32) -> (r: Date)
    requires
        min_epoch_day() <= days <= max_epoch_day(),
    ensures
        r.wf(),
        day_number(r) == days,
{
    let mut year: i16 = EPOCH_YEAR;
    let mut rem: i32 = days;
    if days < 0 {
        while rem < 0
            invariant
                min_epoch_day() <= days < 0,
                MIN_YEAR <= year <= EPOCH_YEAR,
                rem as int == days - days_before_year(year as int),
                (rem as int) < days_in_year(year as int),
            decreases year - MIN_YEAR,
        {
            proof {
                if year == MIN_YEAR {
                    assert(min_epoch_day() == days_before_year(MIN_YEAR as int));
                    assert(false);
                }
            }
            year = year - 1;
            rem = rem + days_in_year_exec(year) as i32;
            proof {
                assert(days_before_year(year as int) == days_before_year(year as int + 1)
                    - days_in_year(year as int));
            }
        }
    }
    while rem >= days_in_year_exec(year) as i32
        invariant
            min_epoch_day() <= days <= max_epoch_day(),
            MIN_YEAR <= year <= MAX_YEAR,
            rem as int == days - days_before_year(year as int),
            0 <= rem,
        decreases rem,
    {
        proof {
            assert(days_before_year(year as int + 1) == days_before_year(year as int)
                + days_in_year(year as int));
            if year == MAX_YEAR {
                lemma_days_before_month_full_year(MAX_YEAR as int);
                assert(days_before_month(MAX_YEAR as int, 13) == days_before_month(
                    MAX_YEAR as int,
                    12,
                ) + days_in_month(MAX_YEAR as int, 12));
                assert(max_epoch_day() == days_before_year(10000) - 1);
                assert(false);
            }
        }
        rem = rem - days_in_year_exec(year) as i32;
        year = year + 1;
    }
    let mut month: u8 = 1;
    while rem >= days_in_month_exec(year, month) as i32
        invariant
            MIN_YEAR <= year <= MAX_YEAR,
            1 <= month <= 12,
            rem as int == days - days_before_year(year as int) - days_before_month(
                year as int,
                month as int,
            ),
            0 <= rem,
            days - days_before_year(year as int) < days_in_year(year as int),
        decreases rem,
    {
        proof {
            assert(days_before_month(year as int, month as int + 1) == days_before_month(
                year as int,
                month as int,
            ) + days_in_month(year as int, month as int));
            if month >= 12 {
                lemma_days_before_month_full_year(year as int);
                assert(false);
            }
        }
        rem = rem - days_in_month_exec(year, month) as i32;
        month = month + 1;
    }
    Date { year, month, day: (rem + 1) as u8 }
}

/// Number of days in month `m` of year `y`.
pub fn days_in_month_exec(y: i16, m: u8) -> (r: u8)
    requires
        MIN_YEAR <= y <= MAX_YEAR,
        1 <= m <= 12,
    ensures
        r as int == days_in_month(y as int, m as int),
{
    if m == 2 {
        if is_leap_year_exec(y) {
            29
        } else {
            28
        }
    } else if m == 4 || m == 6 || m == 9 || m == 11 {
        30
    } else {
        31
    }
}

} // verus!
