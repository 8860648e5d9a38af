use vstd::prelude::*;

use chrono::Datelike;

verus! {

/// The earliest year that chrono's `NaiveDate` represents.
pub const MIN_YEAR: i32 = -262143;

/// The latest year that chrono's `NaiveDate` represents.
pub const MAX_YEAR: i32 = 262142;

/// Leap year of the proleptic Gregorian calendar.
pub open spec fn is_leap_year(year: int) -> bool {
    (year % 4 == 0 && year % 100 != 0) || year % 400 == 0
}

pub open spec fn days_in_month(year: int, month: int) -> int {
    if month == 2 {
        if is_leap_year(year) {
            29
        } else {
            28
        }
    } else if month == 4 || month == 6 || month == 9 || month == 11 {
        30
    } else {
        31
    }
}

/// A date of the proleptic Gregorian calendar that chrono can represent.
pub open spec fn is_valid_date(year: int, month: int, day: int) -> bool {
    &&& MIN_YEAR <= year <= MAX_YEAR
    &&& 1 <= month <= 12
    &&& 1 <= day <= days_in_month(year, month)
}

/// The day of the week of a date, in days after Sunday, as chrono computes it.
pub uninterp spec fn days_from_sunday(year: int, month: int, day: int) -> int;

/// Relies on chrono's `NaiveDate::from_ymd_opt`, which returns `None` exactly
/// for a month and day that do not form a date of that year and for a year out
/// of its range, and on `Datelike::weekday` with
/// `Weekday::num_days_from_sunday`, which counts 0 for Sunday to 6 for
/// Saturday.
#[verifier::external_body]
fn weekday_of(year: i32, month: u32, day: u32) -> (r: Option<u32>)
    ensures
        r.is_some() == is_valid_date(year as int, month as int, day as int),
        r matches Some(w) ==> w < 7 && w == days_from_sunday(year as int, month as int, day as int),
{
    match chrono::NaiveDate::from_ymd_opt(year, month, day) {
        Some(d) => Some(d.weekday().num_days_from_sunday()),
        None => None,
    }
}

/// A calendar date with its day of the week (0 for Sunday to 6 for Saturday).
#[derive(Clone, Copy, Debug, PartialEq, Eq, Structural)]
pub struct CalendarDate {
    pub year: i32,
    pub month: u32,
    pub day: u32,
    pub weekday: u32,
}

impl CalendarDate {
    pub open spec fn wf(self) -> bool {
        &&& is_valid_date(self.year as int, self.month as int, self.day as int)
        &&& self.weekday < 7
        &&& self.weekday == days_from_sunday(self.year as int, self.month as int, self.day as int)
    }

    /// The date `year`-`month`-`day`, or `None` where there is no such date.
    pub fn from_ymd(year: i32, month: u32, day: u32) -> (r: Option<CalendarDate>)
        ensures
            r.is_some() == is_valid_date(year as int, month as int, day as int),
            r matches Some(d) ==> d.wf() && d.year == year && d.month == month && d.day == day,
    {
        match weekday_of(year, month, day) {
            Some(weekday) => Some(CalendarDate { year, month, day, weekday }),
            None => None,
        }
    }
}

} // verus!
