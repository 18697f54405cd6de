//! The calendar side of the sun's position: which day of the year a date is.

use vstd::prelude::*;

verus! {

/// Days in the year before the first of each month (a year of 365 days).
pub open spec fn month_start(m: int) -> int {
    if m <= 1 {
        0
    } else if m == 2 {
        31
    } else if m == 3 {
        59
    } else if m == 4 {
        90
    } else if m == 5 {
        120
    } else if m == 6 {
        151
    } else if m == 7 {
        181
    } else if m == 8 {
        212
    } else if m == 9 {
        243
    } else if m == 10 {
        273
    } else if m == 11 {
        304
    } else {
        334
    }
}

/// `v` held to the range `lo..=hi`.
pub open spec fn clamped(v: int, lo: int, hi: int) -> int {
    if v < lo {
        lo
    } else if v > hi {
        hi
    } else {
        v
    }
}

/// The day of the year (1 for January 1st) of `month` and `day`, each first held to its
/// range (months 1 to 12, days 1 to 31), in a year of 365 days.
pub fn day_of_year(month: u32, day: u32) -> (n: u32)
    ensures
        n == month_start(clamped(month as int, 1, 12)) + clamped(day as int, 1, 31),
{
    let m: u32 = if month < 1 {
        1
    } else if month > 12 {
        12
    } else {
        month
    };
    let d: u32 = if day < 1 {
        1
    } else if day > 31 {
        31
    } else {
        day
    };
    let start: Vec<u32> = vec![0, 31, 59, 90, 120, 151, 181, 212, 243, 273, 304, 334];
    let s = start[(m - 1) as usize];
    assert(s == month_start(m as int));
    s + d
}

/// The number of days in month `m` of a 365-day year: thirty days in April, June,
/// September and November, twenty-eight in February, thirty-one in the rest.
pub open spec fn days_in_month(m: int) -> int {
    if m == 2 {
        28
    } else if m == 4 || m == 6 || m == 9 || m == 11 {
        30
    } else {
        31
    }
}

/// The days of the year run on through the calendar: January 1st is day 1, the first of
/// each later month comes right after the last day of the month before, and December 31st
/// is day 365.
pub proof fn lemma_days_follow_the_calendar(m: int)
    ensures
        month_start(1) + 1 == 1,
        1 <= m <= 11 ==> month_start(m + 1) == month_start(m) + days_in_month(m),
        month_start(12) + days_in_month(12) == 365,
{
}

/// Within a month the day of the year counts up one by one from the month's first day.
pub proof fn lemma_days_within_a_month(m: int, d: int)
    requires
        1 <= m <= 12,
        1 <= d <= 31,
    ensures
        month_start(clamped(m, 1, 12)) + clamped(d, 1, 31) == month_start(m) + 1 + (d - 1),
{
}

} // verus!
