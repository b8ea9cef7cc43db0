//! Calendar dates of the proleptic Gregorian calendar, counted in days
//! from 1970-01-01.

use crate::text::{push_signed, push_two_digits, signed_decimal, two_digits};
use vstd::prelude::*;
use vstd::string::*;

verus! {

/// Whether a year has a 29th of February.
pub open spec fn is_leap_year(year: int) -> bool {
    year % 4 == 0 && (year % 100 != 0 || year % 400 == 0)
}

/// The number of days of a year.
pub open spec fn days_in_year(year: int) -> int {
    if is_leap_year(year) {
        366
    } else {
        365
    }
}

/// The number of days of a month, counted from 1.
pub open spec fn days_in_month(year: int, month: int) -> int {
    if month == 2 {
        if is_leap_year(year) {
            29
        } else {
            28
        }
    } else if month == 4 || month == 6 || month == 9 || month == 11 {
        30
    } else {
        31
    }
}

/// The number of days from 1970-01-01 to the first day of a year;
/// negative for the years before.
pub open spec fn days_before_year(year: int) -> int
    decreases
            if year >= 1970 {
                year - 1970
            } else {
                1970 - year
            },
{
    if year == 1970 {
        0
    } else if year > 1970 {
        days_before_year(year - 1) + days_in_year(year - 1)
    } else {
        days_before_year(year + 1) - days_in_year(year)
    }
}

/// The number of days of a year that lie before a month.
pub open spec fn days_before_month(year: int, month: int) -> int
    decreases month,
{
    if month <= 1 {
        0
    } else {
        days_before_month(year, month - 1) + days_in_month(year, month - 1)
    }
}

/// Whether year, month and day name a date.
pub open spec fn is_date(year: int, month: int, day: int) -> bool {
    1 <= month <= 12 && 1 <= day <= days_in_month(year, month)
}

/// The number of days from 1970-01-01 to a date.
pub open spec fn days_from_epoch(year: int, month: int, day: int) -> int {
    days_before_year(year) + days_before_month(year, month) + day - 1
}

/// A date as text: the year, the month and the day, the latter two in
/// two digits, with hyphens between them.
pub open spec fn date_text(year: int, month: int, day: int) -> Seq<char> {
    signed_decimal(year) + seq!['-'] + two_digits(month) + seq!['-'] + two_digits(day)
}

/// The date that lies `days` days from 1970-01-01.
pub open spec fn date_of(days: int) -> (int, int, int) {
    choose|date: (int, int, int)|
        is_date(date.0, date.1, date.2) && days_from_epoch(date.0, date.1, date.2) == days
}

/// The text of the date that lies `days` days from 1970-01-01.
pub open spec fn day_text(days: int) -> Seq<char> {
    date_text(date_of(days).0, date_of(days).1, date_of(days).2)
}

/// A year begins when the year before ends.
pub proof fn lemma_next_year(year: int)
    ensures
        days_before_year(year + 1) == days_before_year(year) + days_in_year(year),
{
}

/// A later year begins no earlier than the end of an earlier one.
pub proof fn lemma_years_ascend(earlier: int, later: int)
    requires
        earlier < later,
    ensures
        days_before_year(earlier) + days_in_year(earlier) <= days_before_year(later),
    decreases later - earlier,
{
    lemma_next_year(later - 1);
    if earlier < later - 1 {
        lemma_years_ascend(earlier, later - 1);
    }
}

/// A later month begins no earlier than the end of an earlier one.
pub proof fn lemma_months_ascend(year: int, earlier: int, later: int)
    requires
        1 <= earlier < later,
    ensures
        0 <= days_before_month(year, earlier),
        days_before_month(year, earlier) + days_in_month(year, earlier) <= days_before_month(
            year,
            later,
        ),
    decreases later,
{
    if earlier < later - 1 {
        lemma_months_ascend(year, earlier, later - 1);
    } else if earlier > 1 {
        lemma_months_ascend(year, earlier - 1, earlier);
    }
}

/// A date lies within its year.
pub proof fn lemma_date_in_year(year: int, month: int, day: int)
    requires
        is_date(year, month, day),
    ensures
        0 <= days_before_month(year, month) + day - 1 < days_in_year(year),
{
    lemma_months_make_year(year);
    lemma_months_ascend(year, month, 13);
}

/// No two dates lie the same number of days from 1970-01-01.
pub proof fn lemma_date_unique(y1: int, m1: int, d1: int, y2: int, m2: int, d2: int)
    requires
        is_date(y1, m1, d1),
        is_date(y2, m2, d2),
        days_from_epoch(y1, m1, d1) == days_from_epoch(y2, m2, d2),
    ensures
        y1 == y2,
        m1 == m2,
        d1 == d2,
{
    lemma_date_in_year(y1, m1, d1);
    lemma_date_in_year(y2, m2, d2);
    if y1 < y2 {
        lemma_years_ascend(y1, y2);
    } else if y2 < y1 {
        lemma_years_ascend(y2, y1);
    } else if m1 < m2 {
        lemma_months_ascend(y1, m1, m2);
    } else if m2 < m1 {
        lemma_months_ascend(y1, m2, m1);
    }
}

/// The months of a year make up the year.
pub proof fn lemma_months_make_year(year: int)
    ensures
        days_before_month(year, 13) == days_in_year(year),
{
    reveal_with_fuel(days_before_month, 14);
}

/// Whether a year has a 29th of February.
pub fn leap_year(year: i32) -> (leap: bool)
    ensures
        leap == is_leap_year(year as int),
{
    year % 4 == 0 && (year % 100 != 0 || year % 400 == 0)
}

/// The number of days of a year.
pub fn year_length(year: i32) -> (days: i64)
    ensures
        days == days_in_year(year as int),
{
    if leap_year(year) {
        366
    } else {
        365
    }
}

/// The number of days of a month.
pub fn month_length(year: i32, month: u8) -> (days: i64)
    ensures
        days == days_in_month(year as int, month as int),
{
    if month == 2 {
        if leap_year(year) {
            29
        } else {
            28
        }
    } else if month == 4 || month == 6 || month == 9 || month == 11 {
        30
    } else {
        31
    }
}

/// The date that lies `days` days from 1970-01-01: its year, month and
/// day of the month.
pub fn civil_date(days: i32) -> (date: (i32, u8, u8))
    ensures
        is_date(date.0 as int, date.1 as int, date.2 as int),
        days_from_epoch(date.0 as int, date.1 as int, date.2 as int) == days,
        date_of(days as int) == (date.0 as int, date.1 as int, date.2 as int),
{
    let mut year: i32 = 1970;
    let mut rest: i64 = days as i64;
    if days < 0 {
        while rest < 0
            invariant
                days_before_year(year as int) + rest == days,
                year <= 1970,
                rest < days_in_year(year as int),
                365 * (1970 - year) <= rest - days,
            decreases 366 - rest,
        {
            year = year - 1;
            rest = rest + year_length(year);
        }
    } else {
        while rest >= year_length(year)
            invariant
                days_before_year(year as int) + rest == days,
                0 <= rest,
                year >= 1970,
                365 * (year - 1970) <= days - rest,
            decreases rest,
        {
            rest = rest - year_length(year);
            year = year + 1;
        }
    }
    let mut month: u8 = 1;
    proof {
        lemma_months_make_year(year as int);
    }
    while rest >= month_length(year, month)
        invariant
            1 <= month <= 12,
            0 <= rest,
            days_before_year(year as int) + days_before_month(year as int, month as int) + rest
                == days,
            days_before_month(year as int, month as int) + rest < days_in_year(year as int),
            days_before_month(year as int, 13) == days_in_year(year as int),
        decreases rest,
    {
        proof {
            if month == 12 {
                assert(days_before_month(year as int, 13) == days_before_month(year as int, 12)
                    + days_in_month(year as int, 12));
            }
        }
        rest = rest - month_length(year, month);
        month = month + 1;
    }
    proof {
        let found = (year as int, month as int, rest + 1);
        assert(is_date(found.0, found.1, found.2) && days_from_epoch(found.0, found.1, found.2)
            == days);
        let chosen = date_of(days as int);
        lemma_date_unique(chosen.0, chosen.1, chosen.2, found.0, found.1, found.2);
    }
    (year, month, (rest + 1) as u8)
}

/// The date that lies `days` days from 1970-01-01, as text.
pub fn day_label(days: i32) -> (label: String)
    ensures
        label@ == day_text(days as int),
{
    let (year, month, day) = civil_date(days);
    let mut label = String::new();
    push_signed(&mut label, year as i64);
    label.append("-");
    push_two_digits(&mut label, month as i64);
    label.append("-");
    push_two_digits(&mut label, day as i64);
    proof {
        reveal_strlit("-");
        assert(label@ =~= date_text(year as int, month as int, day as int));
    }
    label
}

} // verus!
