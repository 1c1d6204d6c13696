//! Calendar dates for payment schedules.
//!
//! A payment date advances by exactly one calendar month per period: only the
//! month and year fields move, the day of month is kept as it is.  An advance
//! that lands on a day the new month does not have is an error, never a
//! silent clamp.  Validity of a (year, month, day) triple is checked by
//! chrono, against the spec function `valid_date`.

use vstd::prelude::*;

verus! {

/// Proleptic Gregorian leap year rule.
pub open spec fn is_leap_year(year: int) -> bool {
    (year % 4 == 0 && year % 100 != 0) || year % 400 == 0
}

/// Number of days in `month` of `year`.
pub open spec fn days_in_month(year: int, month: int) -> int
    recommends
        1 <= month <= 12,
{
    if month == 2 {
        if is_leap_year(year) {
            29
        } else {
            28
        }
    } else if month == 4 || month == 6 || month == 9 || month == 11 {
        30
    } else {
        31
    }
}

/// A real proleptic Gregorian calendar date within the year range chrono's
/// `NaiveDate` supports (-262143 ..= 262142).
pub open spec fn valid_date(year: int, month: int, day: int) -> bool {
    &&& -262143 <= year <= 262142
    &&& 1 <= month <= 12
    &&& 1 <= day <= days_in_month(year, month)
}

/// Relies on chrono's `NaiveDate::from_ymd_opt`: it returns `Some` exactly
/// for real proleptic Gregorian dates whose year `NaiveDate` supports.
#[verifier::external_body]
fn ymd_is_valid(year: i32, month: u32, day: u32) -> (r: bool)
    ensures
        r == valid_date(year as int, month as int, day as int),
{
    chrono::NaiveDate::from_ymd_opt(year, month, day).is_some()
}

/// A calendar date.
#[derive(Clone, Copy, Debug, PartialEq, Eq, Structural)]
pub struct Date {
    pub year: i32,
    pub month: u32,
    pub day: u32,
}

/// The date one calendar month after `d`, day of month kept; the result may
/// name a day the new month does not have, which `Date::advance_month`
/// rejects.
pub open spec fn next_month(d: Date) -> Date {
    if d.month == 12 {
        Date { year: (d.year + 1) as i32, month: 1, day: d.day }
    } else {
        Date { year: d.year, month: (d.month + 1) as u32, day: d.day }
    }
}

/// The date `n` calendar months after `d`, day of month kept.
pub open spec fn month_add(d: Date, n: int) -> Date
    decreases n,
{
    if n <= 0 {
        d
    } else {
        next_month(month_add(d, n - 1))
    }
}

impl Date {
    /// The date names a real calendar day.
    pub open spec fn wf(self) -> bool {
        valid_date(self.year as int, self.month as int, self.day as int)
    }

    /// Builds a date, rejecting triples that name no real calendar day.
    pub fn new(year: i32, month: u32, day: u32) -> (r: Option<Date>)
        ensures
            r == (if valid_date(year as int, month as int, day as int) {
                Some(Date { year, month, day })
            } else {
                None::<Date>
            }),
            r is Some ==> r.unwrap().wf(),
    {
        if ymd_is_valid(year, month, day) {
            Some(Date { year, month, day })
        } else {
            None
        }
    }

    /// Moves one calendar month forward, keeping the day of month; `None`
    /// when the day does not exist in the new month.
    pub fn advance_month(&self) -> (r: Option<Date>)
        requires
            self.wf(),
        ensures
            r == (if next_month(*self).wf() {
                Some(next_month(*self))
            } else {
                None::<Date>
            }),
    {
        let (y2, m2): (i32, u32) = if self.month == 12 {
            (self.year + 1, 1)
        } else {
            (self.year, self.month + 1)
        };
        if ymd_is_valid(y2, m2, self.day) {
            Some(Date { year: y2, month: m2, day: self.day })
        } else {
            None
        }
    }
}

} // verus!
