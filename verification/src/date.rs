//! Calendar dates as day numbers.
//!
//! The streak rules only ever ask how many whole days lie between two dates
//! and which of two dates is earlier. A [`Date`] therefore holds the number
//! of its day in the proleptic Gregorian calendar, counted as `chrono` does:
//! 1 January of the year 1 is day 1.

use vstd::prelude::*;

verus! {

/// A calendar date without a time of day.
#[derive(Clone, Copy, Debug, PartialEq, Eq, Structural)]
pub struct Date {
    /// Days since the start of the Common Era; 0001-01-01 is day 1.
    pub days: i32,
}

impl View for Date {
    type V = int;

    open spec fn view(&self) -> int {
        self.days as int
    }
}

/// The day number that `chrono` gives the calendar day `year`-`month`-`day`,
/// or `None` where `chrono` has no such date.
pub uninterp spec fn calendar_day_number(year: i32, month: u32, day: u32) -> Option<i32>;

/// Whole days from `earlier` to `later`; negative when `later` comes first.
pub open spec fn days_between(earlier: Date, later: Date) -> int {
    later@ - earlier@
}

/// Trusted: `chrono::NaiveDate::from_ymd_opt` followed by
/// `Datelike::num_days_from_ce` on the date it made. Both depend on their
/// arguments alone, so the outcome is the named `calendar_day_number`;
/// nothing more is claimed of it.
#[verifier::external_body]
fn chrono_day_number(year: i32, month: u32, day: u32) -> (r: Option<i32>)
    ensures
        r == calendar_day_number(year, month, day),
{
    match chrono::NaiveDate::from_ymd_opt(year, month, day) {
        Some(date) => Some(chrono::Datelike::num_days_from_ce(&date)),
        None => None,
    }
}

/// Trusted: `chrono::Local::now().date_naive()`, handed back as its day
/// number. The result depends on the clock and the time zone, so nothing is
/// claimed of it.
#[verifier::external_body]
fn chrono_local_today() -> i32 {
    chrono::Datelike::num_days_from_ce(&chrono::Local::now().date_naive())
}

impl Date {
    /// The date with the given day number.
    pub fn from_days(days: i32) -> (r: Date)
        ensures
            r.days == days,
    {
        Date { days }
    }

    /// The date of a calendar day, or `None` where the calendar has no such
    /// day or the year is outside what `chrono` represents.
    pub fn from_ymd(year: i32, month: u32, day: u32) -> (r: Option<Date>)
        ensures
            r == Self::ymd_model(calendar_day_number(year, month, day)),
    {
        Self::from_day_number(chrono_day_number(year, month, day))
    }

    /// What `from_ymd` returns for each outcome of the calendar lookup.
    pub open spec fn ymd_model(number: Option<i32>) -> Option<Date> {
        match number {
            Some(days) => Some(Date { days }),
            None => None,
        }
    }

    /// Wraps the outcome of a calendar lookup.
    pub fn from_day_number(number: Option<i32>) -> (r: Option<Date>)
        ensures
            r == Self::ymd_model(number),
    {
        match number {
            Some(days) => Some(Date { days }),
            None => None,
        }
    }

    /// Today's date by the local clock. It depends on the clock and the time
    /// zone of the machine, and two calls may differ, so nothing is promised
    /// of it: the rules for a streak are stated on the functions that take a
    /// date, for every date.
    pub fn today() -> Date {
        Date { days: chrono_local_today() }
    }

    /// Whole days from `self` to `later`, negative when `later` is earlier.
    pub fn days_until(&self, later: Date) -> (r: i64)
        ensures
            r == days_between(*self, later),
    {
        let a: i64 = self.days as i64;
        let b: i64 = later.days as i64;
        b - a
    }

    /// Whether `self` is strictly earlier than `other`.
    pub fn is_before(&self, other: Date) -> (r: bool)
        ensures
            r == (self@ < other@),
    {
        self.days < other.days
    }
}

} // verus!
