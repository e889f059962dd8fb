//! The `DATE` wire type: an unsigned 16-bit big-endian count of days
//! since 1990-01-01, valid through 2168-12-31.
//!
//! The calendar arithmetic (leap years, month lengths, day offsets) is
//! verified against the proleptic Gregorian rules stated here.

use vstd::prelude::*;

verus! {

/// A calendar date. Fields are plain values; validity is `valid_date`.
#[derive(Clone, Copy, Debug, PartialEq, Eq, Structural)]
pub struct Date {
    pub year: u16,
    pub month: u8,
    pub day: u8,
}

pub open spec fn is_leap_year(y: int) -> bool {
    (y % 4 == 0 && y % 100 != 0) || y % 400 == 0
}

pub open spec fn days_in_month(y: int, m: int) -> int {
    if m == 2 {
        if is_leap_year(y) {
            29
        } else {
            28
        }
    } else if m == 4 || m == 6 || m == 9 || m == 11 {
        30
    } else {
        31
    }
}

pub open spec fn valid_date(d: Date) -> bool {
    &&& 1 <= d.month <= 12
    &&& 1 <= d.day <= days_in_month(d.year as int, d.month as int)
}

pub open spec fn year_len(y: int) -> int {
    if is_leap_year(y) {
        366
    } else {
        365
    }
}

/// Days of year `y` that lie before the first of month `m`.
pub open spec fn days_before_month(y: int, m: int) -> int
    decreases m,
{
    if m <= 1 {
        0
    } else {
        days_before_month(y, m - 1) + days_in_month(y, m - 1)
    }
}

/// Days from 1990-01-01 to the first day of year `y`.
pub open spec fn days_before_year(y: int) -> int
    decreases y,
{
    if y <= 1990 {
        0
    } else {
        days_before_year(y - 1) + year_len(y - 1)
    }
}

/// The day number of a date: its distance in days from 1990-01-01.
pub open spec fn day_index(d: Date) -> int {
    days_before_year(d.year as int) + days_before_month(d.year as int, d.month as int) + d.day - 1
}

/// The day number of 2168-12-31, the last encodable date.
pub const MAX_DATE_OFFSET: u16 = 65378;

/// Evaluates the year table once: 179 years of 365 or 366 days lie
/// between 1990-01-01 and 2169-01-01.
proof fn lemma_date_offset_limit()
    ensures
        days_before_year(2169) == 65379,
{
    assert(days_before_year(2010) == 7305) by {
        reveal_with_fuel(days_before_year, 21);
    }
    assert(days_before_year(2030) == 14610) by {
        reveal_with_fuel(days_before_year, 21);
    }
    assert(days_before_year(2050) == 21915) by {
        reveal_with_fuel(days_before_year, 21);
    }
    assert(days_before_year(2070) == 29220) by {
        reveal_with_fuel(days_before_year, 21);
    }
    assert(days_before_year(2090) == 36525) by {
        reveal_with_fuel(days_before_year, 21);
    }
    assert(days_before_year(2110) == 43829) by {
        reveal_with_fuel(days_before_year, 21);
    }
    assert(days_before_year(2130) == 51134) by {
        reveal_with_fuel(days_before_year, 21);
    }
    assert(days_before_year(2150) == 58439) by {
        reveal_with_fuel(days_before_year, 21);
    }
    assert(days_before_year(2169) == 65379) by {
        reveal_with_fuel(days_before_year, 20);
    }
}

proof fn lemma_days_before_month_full_year(y: int)
    ensures
        days_before_month(y, 13) == year_len(y),
{
    reveal_with_fuel(days_before_month, 13);
}

proof fn lemma_days_before_month_monotone(y: int, m1: int, m2: int)
    requires
        m1 <= m2,
    ensures
        days_before_month(y, m1) <= days_before_month(y, m2),
    decreases m2 - m1,
{
    if m1 < m2 {
        lemma_days_before_month_monotone(y, m1, m2 - 1);
    }
}

proof fn lemma_days_before_year_monotone(y1: int, y2: int)
    requires
        y1 <= y2,
    ensures
        days_before_year(y1) <= days_before_year(y2),
    decreases y2 - y1,
{
    if y1 < y2 && y2 > 1990 {
        lemma_days_before_year_monotone(y1, y2 - 1);
    }
}

/// Every date in 1990..=2168 has a day number in 0..=65378.
pub proof fn lemma_day_index_bounds(d: Date)
    requires
        valid_date(d),
        1990 <= d.year <= 2168,
    ensures
        0 <= day_index(d) <= MAX_DATE_OFFSET,
{
    let y = d.year as int;
    let m = d.month as int;
    lemma_days_before_month_monotone(y, 1, m);
    lemma_days_before_year_monotone(1990, y);
    lemma_days_before_month_monotone(y, m + 1, 13);
    lemma_days_before_month_full_year(y);
    assert(days_before_month(y, m + 1) == days_before_month(y, m) + days_in_month(y, m));
    assert(days_before_year(y + 1) == days_before_year(y) + year_len(y));
    lemma_days_before_year_monotone(y + 1, 2169);
    lemma_date_offset_limit();
}

/// Within its year, a valid date's day-of-year index lies below the
/// year's length.
proof fn lemma_day_in_year_bound(d: Date)
    requires
        valid_date(d),
    ensures
        0 <= days_before_month(d.year as int, d.month as int) + d.day - 1 < year_len(
            d.year as int,
        ),
{
    let y = d.year as int;
    let m = d.month as int;
    lemma_days_before_month_monotone(y, 1, m);
    assert(days_before_month(y, m + 1) == days_before_month(y, m) + days_in_month(y, m));
    lemma_days_before_month_monotone(y, m + 1, 13);
    lemma_days_before_month_full_year(y);
}

/// A day number names at most one calendar date: two valid dates at the
/// same distance from 1990-01-01 are the same date.
pub proof fn lemma_day_index_injective(d1: Date, d2: Date)
    requires
        valid_date(d1),
        valid_date(d2),
        d1.year >= 1990,
        d2.year >= 1990,
        day_index(d1) == day_index(d2),
    ensures
        d1 == d2,
{
    let y1 = d1.year as int;
    let y2 = d2.year as int;
    let m1 = d1.month as int;
    let m2 = d2.month as int;
    lemma_day_in_year_bound(d1);
    lemma_day_in_year_bound(d2);
    if y1 < y2 {
        assert(days_before_year(y1 + 1) == days_before_year(y1) + year_len(y1));
        lemma_days_before_year_monotone(y1 + 1, y2);
        assert(false);
    }
    if y2 < y1 {
        assert(days_before_year(y2 + 1) == days_before_year(y2) + year_len(y2));
        lemma_days_before_year_monotone(y2 + 1, y1);
        assert(false);
    }
    if m1 < m2 {
        assert(days_before_month(y1, m1 + 1) == days_before_month(y1, m1) + days_in_month(y1, m1));
        lemma_days_before_month_monotone(y1, m1 + 1, m2);
        assert(false);
    }
    if m2 < m1 {
        assert(days_before_month(y1, m2 + 1) == days_before_month(y1, m2) + days_in_month(y1, m2));
        lemma_days_before_month_monotone(y1, m2 + 1, m1);
        assert(false);
    }
}

fn is_leap(y: u16) -> (r: bool)
    ensures
        r == is_leap_year(y as int),
{
    (y % 4 == 0 && y % 100 != 0) || y % 400 == 0
}

pub(crate) fn month_len(y: u16, m: u8) -> (r: u8)
    ensures
        r == days_in_month(y as int, m as int),
{
    if m == 2 {
        if is_leap(y) {
            29
        } else {
            28
        }
    } else if m == 4 || m == 6 || m == 9 || m == 11 {
        30
    } else {
        31
    }
}

fn year_len_exec(y: u16) -> (r: u16)
    ensures
        r == year_len(y as int),
{
    if is_leap(y) {
        366
    } else {
        365
    }
}

/// Converts a day number (days since 1990-01-01) to the date it names.
pub fn date_from_day_offset(offset: u16) -> (d: Date)
    requires
        offset <= MAX_DATE_OFFSET,
    ensures
        valid_date(d),
        1990 <= d.year <= 2168,
        day_index(d) == offset,
{
    let mut y: u16 = 1990;
    let mut rem: u16 = offset;
    proof {
        lemma_date_offset_limit();
    }
    loop
        invariant
            1990 <= y <= 2168,
            days_before_year(y as int) + rem == offset,
            offset <= MAX_DATE_OFFSET,
        ensures
            1990 <= y <= 2168,
            days_before_year(y as int) + rem == offset,
            rem < year_len(y as int),
        decreases 2169 - y,
    {
        let yl = year_len_exec(y);
        if rem < yl {
            break ;
        }
        proof {
            assert(days_before_year(y as int + 1) == days_before_year(y as int) + year_len(
                y as int,
            ));
            if y as int + 1 == 2169 {
                lemma_date_offset_limit();
                assert(false);
            }
        }
        rem = rem - yl;
        y = y + 1;
    }
    let mut m: u8 = 1;
    loop
        invariant
            1 <= m <= 12,
            1990 <= y <= 2168,
            days_before_year(y as int) + days_before_month(y as int, m as int) + rem == offset,
            days_before_month(y as int, m as int) + rem < year_len(y as int),
        ensures
            1 <= m <= 12,
            1990 <= y <= 2168,
            days_before_year(y as int) + days_before_month(y as int, m as int) + rem == offset,
            rem < days_in_month(y as int, m as int),
        decreases 13 - m,
    {
        let ml = month_len(y, m);
        if rem < ml as u16 {
            break ;
        }
        proof {
            assert(days_before_month(y as int, m as int + 1) == days_before_month(
                y as int,
                m as int,
            ) + days_in_month(y as int, m as int));
            if m as int + 1 == 13 {
                lemma_days_before_month_full_year(y as int);
                assert(false);
            }
        }
        rem = rem - ml as u16;
        m = m + 1;
    }
    Date { year: y, month: m, day: (rem + 1) as u8 }
}

/// Converts a date in 1990..=2168 to its day number.
pub fn day_offset_from_date(d: Date) -> (offset: u16)
    requires
        valid_date(d),
        1990 <= d.year <= 2168,
    ensures
        offset == day_index(d),
        offset <= MAX_DATE_OFFSET,
{
    proof {
        lemma_day_index_bounds(d);
    }
    let mut y: u16 = 1990;
    let mut acc: u32 = 0;
    while y < d.year
        invariant
            1990 <= y <= d.year <= 2168,
            acc == days_before_year(y as int),
        decreases d.year - y,
    {
        proof {
            lemma_days_before_year_monotone(y as int + 1, d.year as int);
            lemma_days_before_year_monotone(d.year as int, 2169);
            lemma_date_offset_limit();
            assert(days_before_year(y as int + 1) == days_before_year(y as int) + year_len(
                y as int,
            ));
        }
        acc = acc + year_len_exec(y) as u32;
        y = y + 1;
    }
    let mut m: u8 = 1;
    while m < d.month
        invariant
            1 <= m <= d.month,
            valid_date(d),
            acc == days_before_year(d.year as int) + days_before_month(d.year as int, m as int),
            1990 <= d.year <= 2168,
        decreases d.month - m,
    {
        proof {
            lemma_day_index_bounds(d);
            lemma_days_before_month_monotone(d.year as int, m as int + 1, d.month as int);
            lemma_days_before_month_monotone(d.year as int, 1, m as int);
            assert(days_before_month(d.year as int, m as int + 1) == days_before_month(
                d.year as int,
                m as int,
            ) + days_in_month(d.year as int, m as int));
        }
        acc = acc + month_len(d.year, m) as u32;
        m = m + 1;
    }
    (acc + d.day as u32 - 1) as u16
}

} // verus!
