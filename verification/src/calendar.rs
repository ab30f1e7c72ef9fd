//! Calendar times, and what the calendar says of them.
//!
//! The library keeps a time as six plain numbers. Which days exist, on which
//! weekday a day falls and how a time relates to the count of seconds since
//! 1970 is the calendar's business: those answers come from `chrono`.

use vstd::prelude::*;
use chrono::Datelike;
use chrono::Timelike;

verus! {

/// A time of the calendar in whole seconds, in UTC.
#[derive(Clone, Copy, Debug, PartialEq, Eq, Structural)]
pub struct CivilTime {
    pub year: u32,
    pub month: u32,
    pub day: u32,
    pub hour: u32,
    pub minute: u32,
    pub second: u32,
}

/// The greatest count of seconds since 1970 that a count of nanoseconds in
/// 64 bits can lead to, the step to the next whole second included.
pub const MAX_UNIX_SECONDS: i64 = 18_446_744_074;

/// The weekday of a day of the calendar, Sunday being 1 and Saturday 7;
/// `None` where the calendar has no such day.
pub uninterp spec fn calendar_weekday(year: u32, month: u32, day: u32) -> Option<u32>;

/// The calendar time that lies `seconds` seconds after the start of 1970.
pub uninterp spec fn unix_civil(seconds: i64) -> Option<CivilTime>;

/// The seconds from the start of 1970 to a calendar time.
pub uninterp spec fn civil_unix(time: CivilTime) -> Option<i64>;

/// Calls `chrono::NaiveDate::from_ymd_opt` and, on the date it gives,
/// `weekday().number_from_sunday()`. Claims that the answer depends on the
/// three numbers alone.
#[verifier::external_body]
pub(crate) fn weekday_of(year: u32, month: u32, day: u32) -> (r: Option<u32>)
    requires
        year <= i32::MAX,
    ensures
        r == calendar_weekday(year, month, day),
{
    match chrono::NaiveDate::from_ymd_opt(year as i32, month, day) {
        Some(date) => Some(date.weekday().number_from_sunday()),
        None => None,
    }
}

/// Calls `chrono::DateTime::from_timestamp` with no nanoseconds and reads the
/// six fields of what it gives. Claims that the answer depends on the count
/// alone, and that every count up to `MAX_UNIX_SECONDS` has one.
#[verifier::external_body]
pub(crate) fn civil_from_unix(seconds: i64) -> (r: Option<CivilTime>)
    requires
        0 <= seconds,
    ensures
        r == unix_civil(seconds),
        seconds <= MAX_UNIX_SECONDS ==> r is Some,
{
    match chrono::DateTime::from_timestamp(seconds, 0) {
        Some(t) => Some(
            CivilTime {
                year: t.year() as u32,
                month: t.month(),
                day: t.day(),
                hour: t.hour(),
                minute: t.minute(),
                second: t.second(),
            },
        ),
        None => None,
    }
}

/// Calls `chrono::NaiveDate::from_ymd_opt`, `and_hms_opt` on the date and
/// `and_utc().timestamp()` on the time. Claims that the answer depends on the
/// six numbers alone.
#[verifier::external_body]
pub(crate) fn unix_from_civil(time: &CivilTime) -> (r: Option<i64>)
    requires
        time.year <= i32::MAX,
    ensures
        r == civil_unix(*time),
{
    match chrono::NaiveDate::from_ymd_opt(time.year as i32, time.month, time.day) {
        Some(date) => match date.and_hms_opt(time.hour, time.minute, time.second) {
            Some(t) => Some(t.and_utc().timestamp()),
            None => None,
        },
        None => None,
    }
}

} // verus!
