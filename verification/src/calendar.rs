//! Which dates and times of day exist.

use vstd::prelude::*;
use crate::definitions::{Date, DateTime, Time};

verus! {

/// The year is a leap year of the proleptic Gregorian calendar.
pub open spec fn is_leap_year(year: int) -> bool {
    year % 4 == 0 && (year % 100 != 0 || year % 400 == 0)
}

/// The number of days of a month.
pub open spec fn days_in_month(year: int, month: int) -> int {
    if month == 2 {
        if is_leap_year(year) {
            29
        } else {
            28
        }
    } else if month == 4 || month == 6 || month == 9 || month == 11 {
        30
    } else {
        31
    }
}

/// The first year that a date can lie in.
pub const MIN_YEAR: i32 = -262143;

/// The last year that a date can lie in.
pub const MAX_YEAR: i32 = 262142;

/// The day exists in the proleptic Gregorian calendar, in a year that a
/// date can lie in.
pub open spec fn date_exists(year: int, month: int, day: int) -> bool {
    &&& MIN_YEAR <= year <= MAX_YEAR
    &&& 1 <= month <= 12
    &&& 1 <= day <= days_in_month(year, month)
}

/// The time of day exists; a leap second does not count.
pub open spec fn time_exists(hour: int, minute: int, second: int) -> bool {
    0 <= hour < 24 && 0 <= minute < 60 && 0 <= second < 60
}

/// Asks `chrono::NaiveDate::from_ymd_opt` whether it has a date for the
/// three fields. It has none where the day does not exist in the calendar,
/// where month or day is out of range, and where the year lies outside
/// the years that the crate can hold.
#[verifier::external_body]
fn date_is_valid(year: i32, month: u32, day: u32) -> (r: bool)
    ensures
        r == date_exists(year as int, month as int, day as int),
{
    chrono::NaiveDate::from_ymd_opt(year, month, day).is_some()
}

/// Asks `chrono::NaiveTime::from_hms_opt` whether it has a time for the
/// three fields. It has none on an invalid hour, minute or second.
#[verifier::external_body]
fn time_is_valid(hour: u32, minute: u32, second: u32) -> (r: bool)
    ensures
        r == time_exists(hour as int, minute as int, second as int),
{
    chrono::NaiveTime::from_hms_opt(hour, minute, second).is_some()
}

/// The date with the given fields, where it exists.
pub fn date_from_ymd(year: i32, month: u32, day: u32) -> (r: Option<Date>)
    ensures
        r == if date_exists(year as int, month as int, day as int) {
            Some(Date { year, month, day })
        } else {
            None
        },
{
    if date_is_valid(year, month, day) {
        Some(Date { year, month, day })
    } else {
        None
    }
}

/// The time of day with the given fields, where it exists.
pub fn time_from_hms(hour: u32, minute: u32, second: u32) -> (r: Option<Time>)
    ensures
        r == if time_exists(hour as int, minute as int, second as int) {
            Some(Time { hour, minute, second })
        } else {
            None
        },
{
    if time_is_valid(hour, minute, second) {
        Some(Time { hour, minute, second })
    } else {
        None
    }
}

/// A date with a time of day.
pub fn date_and_time(date: Date, time: Time) -> (r: DateTime)
    ensures
        r == (DateTime { date, time }),
{
    DateTime { date, time }
}

} // verus!
