//! Rendering a [`Timestamp`] as an RFC 2822 date line, read as UTC.
//!
//! A timestamp renders only when every field lies in its calendar or clock
//! range; anything else degrades to "no publication date" instead of failing.

use vstd::prelude::*;
use chrono::TimeZone;
use crate::model::{Timestamp, opt_view};

verus! {

/// A leap year in the Gregorian calendar.
pub open spec fn is_leap_year(year: int) -> bool {
    (year % 4 == 0 && year % 100 != 0) || year % 400 == 0
}

/// Days in the given month of the given year.
pub open spec fn days_in_month(year: int, month: int) -> int
    recommends
        1 <= month <= 12,
{
    if month == 2 {
        if is_leap_year(year) {
            29
        } else {
            28
        }
    } else if month == 4 || month == 6 || month == 9 || month == 11 {
        30
    } else {
        31
    }
}

/// Every field lies in its calendar or clock range; years are kept to four
/// digits. Only such timestamps render as a publication date.
pub open spec fn ts_valid(t: Timestamp) -> bool {
    &&& 0 <= t.year <= 9999
    &&& 1 <= t.month <= 12
    &&& 1 <= t.day && t.day as int <= days_in_month(t.year as int, t.month as int)
    &&& 0 <= t.hours <= 23
    &&& 0 <= t.minutes <= 59
    &&& 0 <= t.seconds <= 59
    &&& 0 <= t.nanos < 1_000_000_000
}

/// What `chrono` renders, in RFC 2822 form, for the given civil time read as
/// UTC: a function of the six fields alone.
pub uninterp spec fn rfc2822_of(
    year: int,
    month: int,
    day: int,
    hours: int,
    minutes: int,
    seconds: int,
) -> Seq<char>;

/// The RFC 2822 rendering of a timestamp's date and time fields.
pub open spec fn rfc2822_of_ts(t: Timestamp) -> Seq<char> {
    rfc2822_of(
        t.year as int,
        t.month as int,
        t.day as int,
        t.hours as int,
        t.minutes as int,
        t.seconds as int,
    )
}

/// Relies on chrono: `FixedOffset::east_opt(0)` with
/// `TimeZone::with_ymd_and_hms` accepts every four-digit-year civil time in
/// range (at a fixed offset the mapping is always a single instant), and
/// `DateTime::to_rfc2822` renders it.
#[verifier::external_body]
fn chrono_rfc2822(year: i32, month: i32, day: i32, hours: i32, minutes: i32, seconds: i32) -> (r:
    String)
    requires
        ts_valid(Timestamp { year, month, day, hours, minutes, seconds, nanos: 0 }),
    ensures
        r@ == rfc2822_of(
            year as int,
            month as int,
            day as int,
            hours as int,
            minutes as int,
            seconds as int,
        ),
{
    let utc = chrono::FixedOffset::east_opt(0).unwrap();
    let dt = utc.with_ymd_and_hms(
        year,
        month as u32,
        day as u32,
        hours as u32,
        minutes as u32,
        seconds as u32,
    );
    match dt.single() {
        Some(d) => d.to_rfc2822(),
        None => String::new(),
    }
}

/// Days in the given month of the given year, computed.
pub fn days_in_month_exec(year: i32, month: i32) -> (r: i32)
    requires
        0 <= year,
        1 <= month <= 12,
    ensures
        r as int == days_in_month(year as int, month as int),
{
    let leap: bool = (year % 4 == 0 && year % 100 != 0) || year % 400 == 0;
    if month == 2 {
        if leap {
            29
        } else {
            28
        }
    } else if month == 4 || month == 6 || month == 9 || month == 11 {
        30
    } else {
        31
    }
}

/// True exactly when `t` lies in the rendering ranges.
pub fn ts_valid_exec(t: &Timestamp) -> (r: bool)
    ensures
        r == ts_valid(*t),
{
    if !(0 <= t.year && t.year <= 9999 && 1 <= t.month && t.month <= 12 && 0 <= t.hours && t.hours
        <= 23 && 0 <= t.minutes && t.minutes <= 59 && 0 <= t.seconds && t.seconds <= 59 && 0
        <= t.nanos && t.nanos < 1_000_000_000) {
        return false;
    }
    let days = days_in_month_exec(t.year, t.month);
    1 <= t.day && t.day <= days
}

impl Timestamp {
    /// This timestamp rendered as an RFC 2822 date line, read as UTC; `None`
    /// exactly when some field is out of range.
    pub fn to_rfc2822(&self) -> (r: Option<String>)
        ensures
            match r {
                Some(s) => ts_valid(*self) && s@ == rfc2822_of_ts(*self),
                None => !ts_valid(*self),
            },
    {
        if ts_valid_exec(self) {
            Some(
                chrono_rfc2822(self.year, self.month, self.day, self.hours, self.minutes,
                self.seconds),
            )
        } else {
            None
        }
    }
}

/// The publication date of an optional timestamp: its rendering when present
/// and in range, nothing otherwise.
pub open spec fn pub_date_view(dt: Option<Timestamp>) -> Option<Seq<char>> {
    match dt {
        Some(t) => if ts_valid(t) {
            Some(rfc2822_of_ts(t))
        } else {
            None
        },
        None => None,
    }
}

/// Renders an optional timestamp as an optional publication date.
pub fn to_datetime(dt: &Option<Timestamp>) -> (r: Option<String>)
    ensures
        opt_view(r) == pub_date_view(*dt),
{
    match dt {
        Some(t) => t.to_rfc2822(),
        None => None,
    }
}

} // verus!
