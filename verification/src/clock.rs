//! Calendar time, through `chrono`.

use crate::numerals::opt_int;
use chrono::{Datelike, Timelike};
use vstd::prelude::*;

verus! {

broadcast use vstd::string::group_string_axioms;

/// A date of the Gregorian calendar and a time of day.
#[derive(Debug, Clone, Copy, PartialEq, Eq, Structural)]
pub struct CivilTime {
    pub year: i32,
    pub month: u32,
    pub day: u32,
    pub hour: u32,
    pub minute: u32,
    pub second: u32,
    /// From one thousand million on, in the last second of a minute, a leap second.
    pub nano: u32,
}

pub open spec fn is_leap_year(year: int) -> bool {
    year % 4 == 0 && (year % 100 != 0 || year % 400 == 0)
}

pub open spec fn days_in_month(year: int, month: int) -> int {
    if month == 2 {
        if is_leap_year(year) {
            29
        } else {
            28
        }
    } else if month == 4 || month == 6 || month == 9 || month == 11 {
        30
    } else {
        31
    }
}

/// The days of `year` before the first of `month`.
pub open spec fn days_before_month(year: int, month: int) -> int
    decreases month,
{
    if month <= 1 {
        0
    } else {
        days_before_month(year, month - 1) + days_in_month(year, month - 1)
    }
}

/// The days from 1970-01-01 to a date.
pub open spec fn days_since_epoch(year: int, month: int, day: int) -> int {
    let before = year - 1;
    365 * before + before / 4 - before / 100 + before / 400 - 719162 + days_before_month(
        year,
        month,
    ) + day - 1
}

/// There is such a date, and `chrono` reaches to it.
pub open spec fn is_date(t: CivilTime) -> bool {
    &&& -262143 <= t.year <= 262142
    &&& 1 <= t.month <= 12
    &&& 1 <= t.day <= days_in_month(t.year as int, t.month as int)
}

/// There is such a time of day.
pub open spec fn is_time_of_day(t: CivilTime) -> bool {
    &&& t.hour < 24
    &&& t.minute < 60
    &&& t.second < 60
    &&& t.nano < 1_000_000_000 || (t.nano < 2_000_000_000 && t.second == 59)
}

/// The seconds from 1970-01-01 00:00:00 UTC to `t` at `offset` seconds east of Greenwich.
pub open spec fn seconds_since_epoch(t: CivilTime, offset: int) -> int {
    days_since_epoch(t.year as int, t.month as int, t.day as int) * 86400 + t.hour * 3600 + t.minute
        * 60 + t.second - offset
}

/// `seconds` lies within the years that `chrono` reaches to.
pub open spec fn in_reach(seconds: int) -> bool {
    days_since_epoch(-262143, 1, 1) * 86400 <= seconds < (days_since_epoch(262142, 12, 31) + 1)
        * 86400
}

/// The milliseconds from 1970-01-01 00:00:00 UTC to `t` at `offset` seconds east of Greenwich,
/// where there is such a time.
pub open spec fn civil_millis(t: CivilTime, offset: int) -> Option<int> {
    let seconds = seconds_since_epoch(t, offset);
    if is_date(t) && is_time_of_day(t) && -86400 < offset < 86400 && in_reach(seconds) {
        Some(seconds * 1000 + t.nano as int / 1_000_000)
    } else {
        None
    }
}

/// `NaiveDate::from_ymd_opt` and `and_hms_nano_opt` with the fields of `t`, placed by
/// `and_local_timezone` in the zone of `FixedOffset::east_opt`, as `timestamp_millis`. Nothing comes
/// back where there is no such date, time of day or zone, or where the same moment in UTC lies
/// beyond the years that `chrono` reaches to.
#[verifier::external_body]
pub(crate) fn local_millis(t: CivilTime, offset_secs: i32) -> (r: Option<i64>)
    ensures
        opt_int(r) == civil_millis(t, offset_secs as int),
{
    let date = chrono::NaiveDate::from_ymd_opt(t.year, t.month, t.day)?;
    let local = date.and_hms_nano_opt(t.hour, t.minute, t.second, t.nano)?;
    let offset = chrono::FixedOffset::east_opt(offset_secs)?;
    Some(local.and_local_timezone(offset).single()?.timestamp_millis())
}

/// The format of the times that are read, in the notation of `strftime`.
pub const DATETIME_FORMAT: &'static str = "%Y-%m-%d %H:%M:%S";

/// The date and time that `chrono` reads in `text` by `DATETIME_FORMAT`.
pub uninterp spec fn datetime_in(text: Seq<char>) -> Option<CivilTime>;

/// `NaiveDateTime::parse_from_str` with `DATETIME_FORMAT`, and the fields of what it reads; nothing
/// where it fails. Other formats are left out: with some of them it can panic.
#[verifier::external_body]
pub(crate) fn read_datetime(text: &str, format: &str) -> (r: Option<CivilTime>)
    requires
        format@ == DATETIME_FORMAT@,
    ensures
        r == datetime_in(text@),
{
    let t = chrono::NaiveDateTime::parse_from_str(text, format).ok()?;
    Some(CivilTime {
        year: t.year(),
        month: t.month(),
        day: t.day(),
        hour: t.hour(),
        minute: t.minute(),
        second: t.second(),
        nano: t.nanosecond(),
    })
}

} // verus!
