//! Calendar dates of the proleptic Gregorian calendar, years 0 to 9999.

use chrono::Datelike;
use vstd::prelude::*;

verus! {

/// A calendar date. `wf` holds of every date the library hands out.
#[derive(Clone, Copy, Debug, PartialEq, Eq, Structural)]
pub struct Date {
    pub year: i32,
    pub month: u32,
    pub day: u32,
}

pub open spec fn is_leap_year(y: int) -> bool {
    (y % 4 == 0 && y % 100 != 0) || y % 400 == 0
}

pub open spec fn days_in_month(y: int, m: int) -> int {
    if m == 2 {
        if is_leap_year(y) { 29 } else { 28 }
    } else if m == 4 || m == 6 || m == 9 || m == 11 {
        30
    } else {
        31
    }
}

/// Days of the year `y` that come before the first of month `m`.
pub open spec fn days_before_month(y: int, m: int) -> int
    decreases m,
{
    if m <= 1 {
        0
    } else {
        days_before_month(y, m - 1) + days_in_month(y, m - 1)
    }
}

/// Number of days from 0000-01-01 to the date `y-m-d` (for `y >= 0`).
pub open spec fn day_number(y: int, m: int, d: int) -> int {
    365 * y + (y + 3) / 4 - (y + 99) / 100 + (y + 399) / 400 + days_before_month(y, m) + d - 1
}

impl Date {
    /// Month and day name a day of the calendar (any year).
    pub open spec fn is_calendar_date(self) -> bool {
        1 <= self.month <= 12 && 1 <= self.day <= days_in_month(self.year as int, self.month as int)
    }

    pub open spec fn wf(self) -> bool {
        0 <= self.year <= 9999 && self.is_calendar_date()
    }

    /// The date as a count of days, so that consecutive dates differ by one.
    pub open spec fn ordinal(self) -> int {
        day_number(self.year as int, self.month as int, self.day as int)
    }

    /// The calendar day after this one.
    pub open spec fn next(self) -> Date {
        if (self.day as int) < days_in_month(self.year as int, self.month as int) {
            Date { year: self.year, month: self.month, day: (self.day + 1) as u32 }
        } else if self.month < 12 {
            Date { year: self.year, month: (self.month + 1) as u32, day: 1 }
        } else {
            Date { year: (self.year + 1) as i32, month: 1, day: 1 }
        }
    }

    /// The date `k` days after this one.
    pub open spec fn plus_days(self, k: nat) -> Date
        decreases k,
    {
        if k == 0 {
            self
        } else {
            self.plus_days((k - 1) as nat).next()
        }
    }

    /// Builds a date, or `None` where the three numbers name no day of years 0 to 9999.
    pub fn new(year: i32, month: u32, day: u32) -> (r: Option<Date>)
        ensures
            r is Some <==> (Date { year, month, day }).wf(),
            r is Some ==> r->0 == (Date { year, month, day }),
    {
        if year < 0 || year > 9999 || month < 1 || month > 12 || day < 1 {
            return None;
        }
        let dim = month_length(year, month);
        if day > dim {
            None
        } else {
            Some(Date { year, month, day })
        }
    }
}

/// Whether `y` is a leap year.
pub fn leap_year(y: i32) -> (r: bool)
    ensures
        r == is_leap_year(y as int),
{
    (y % 4 == 0 && y % 100 != 0) || y % 400 == 0
}

/// Number of days in month `m` of year `y`.
pub fn month_length(y: i32, m: u32) -> (r: u32)
    ensures
        r == days_in_month(y as int, m as int),
{
    if m == 2 {
        if leap_year(y) { 29 } else { 28 }
    } else if m == 4 || m == 6 || m == 9 || m == 11 {
        30
    } else {
        31
    }
}

/// Relies on chrono's `NaiveDate::from_ymd_opt` (to build both dates) and
/// `NaiveDate::signed_duration_since` with `TimeDelta::num_days`: the signed
/// number of days from `earlier` to `later`.
#[verifier::external_body]
pub(crate) fn days_between(earlier: &Date, later: &Date) -> (r: i64)
    requires
        earlier.wf(),
        later.wf(),
    ensures
        r == later.ordinal() - earlier.ordinal(),
{
    let a = chrono::NaiveDate::from_ymd_opt(earlier.year, earlier.month, earlier.day).unwrap();
    let b = chrono::NaiveDate::from_ymd_opt(later.year, later.month, later.day).unwrap();
    b.signed_duration_since(a).num_days()
}

/// Relies on chrono's `NaiveDate::from_ymd_opt` and `NaiveDate::succ_opt`:
/// the calendar day after `d` (which chrono has for every year up to 262142).
#[verifier::external_body]
pub(crate) fn following_day(d: &Date) -> (r: Date)
    requires
        d.wf(),
    ensures
        r == d.next(),
{
    let n = chrono::NaiveDate::from_ymd_opt(d.year, d.month, d.day).unwrap().succ_opt().unwrap();
    Date { year: n.year(), month: n.month(), day: n.day() }
}

proof fn lemma_days_before_month_bounds(y: int, m: int)
    requires
        1 <= m <= 12,
    ensures
        0 <= days_before_month(y, m) <= 31 * (m - 1),
    decreases m,
{
    if m > 1 {
        lemma_days_before_month_bounds(y, m - 1);
    }
}

/// A date of years 0 to 9999 counts fewer than four million days.
pub proof fn lemma_ordinal_bounds(d: Date)
    requires
        d.wf(),
    ensures
        0 <= d.ordinal() < 4_000_000,
{
    lemma_days_before_month_bounds(d.year as int, d.month as int);
}

/// The day after a date counts one day more.
pub proof fn lemma_next_ordinal(d: Date)
    requires
        d.wf(),
    ensures
        d.next().ordinal() == d.ordinal() + 1,
        d.next().is_calendar_date(),
{
    let y = d.year as int;
    if (d.day as int) < days_in_month(y, d.month as int) {
    } else if d.month < 12 {
        assert(days_before_month(y, d.month as int + 1) == days_before_month(y, d.month as int)
            + days_in_month(y, d.month as int));
    } else {
        reveal_with_fuel(days_before_month, 12);
        assert((y + 4) / 4 - (y + 3) / 4 == if y % 4 == 0 { 1int } else { 0 });
        assert((y + 100) / 100 - (y + 99) / 100 == if y % 100 == 0 { 1int } else { 0 });
        assert((y + 400) / 400 - (y + 399) / 400 == if y % 400 == 0 { 1int } else { 0 });
    }
}

/// Counting `k` days on from a date, short of a later date, stays among the
/// dates of years 0 to 9999 and adds `k` to the ordinal.
pub proof fn lemma_plus_days_ordinal(d: Date, k: nat, later: Date)
    requires
        d.wf(),
        later.wf(),
        d.ordinal() + k <= later.ordinal(),
    ensures
        d.plus_days(k).wf(),
        d.plus_days(k).ordinal() == d.ordinal() + k,
    decreases k,
{
    if k > 0 {
        lemma_plus_days_ordinal(d, (k - 1) as nat, later);
        lemma_next_wf(d.plus_days((k - 1) as nat), later);
    }
}

proof fn lemma_month_end_bound(y: int, m: int)
    requires
        1 <= m <= 12,
    ensures
        days_before_month(y, m) + days_in_month(y, m) <= days_before_month(y, 12) + 31,
    decreases 12 - m,
{
    if m < 12 {
        lemma_month_end_bound(y, m + 1);
    }
}

proof fn lemma_year_end_monotone(y: int, z: int)
    requires
        0 <= y <= z <= 9999,
    ensures
        day_number(y, 12, 31) <= day_number(z, 12, 31),
    decreases z - y,
{
    if y < z {
        lemma_year_end_monotone(y + 1, z);
        let last = Date { year: y as i32, month: 12, day: 31 };
        lemma_next_ordinal(last);
        lemma_days_before_month_bounds(y + 1, 12);
    }
}

/// No date of years 0 to 9999 comes after 9999-12-31.
proof fn lemma_ordinal_at_most_last(d: Date)
    requires
        d.wf(),
    ensures
        d.ordinal() <= day_number(9999, 12, 31),
{
    lemma_month_end_bound(d.year as int, d.month as int);
    lemma_year_end_monotone(d.year as int, 9999);
}

/// A date before some other date of years 0 to 9999 has a successor among them.
pub proof fn lemma_next_wf(d: Date, later: Date)
    requires
        d.wf(),
        later.wf(),
        d.ordinal() < later.ordinal(),
    ensures
        d.next().wf(),
        d.next().ordinal() == d.ordinal() + 1,
{
    lemma_next_ordinal(d);
    lemma_ordinal_at_most_last(later);
    if d.year == 9999 && d.month == 12 && d.day == 31 {
        assert(false);
    }
}

} // verus!
