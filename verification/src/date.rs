//! Calendar dates as Julian day numbers.
//!
//! The core carries every date as a single integer (a Julian day number),
//! so that range filters, the lookback cutoff and the scheduler cadence are
//! plain integer arithmetic. The conversion from a calendar date to its day
//! number is delegated to the `time` crate.

use vstd::prelude::*;

verus! {

/// The ingestion lookback window: provider rows older than this many days
/// are discarded by the normalizer.
pub const LOOKBACK_DAYS: i64 = 14;

/// Proleptic Gregorian leap-year rule.
pub open spec fn spec_is_leap_year(y: int) -> bool {
    y % 4 == 0 && (y % 100 != 0 || y % 400 == 0)
}

/// Number of days in a month of a given year; zero for a month outside
/// `1 ..= 12`.
pub open spec fn spec_days_in_month(y: int, m: int) -> int {
    if m == 1 || m == 3 || m == 5 || m == 7 || m == 8 || m == 10 || m == 12 {
        31
    } else if m == 4 || m == 6 || m == 9 || m == 11 {
        30
    } else if m == 2 {
        if spec_is_leap_year(y) { 29 } else { 28 }
    } else {
        0
    }
}

/// The calendar dates representable by the `time` crate: years within
/// `-9999 ..= 9999`, month within `1 ..= 12`, day within the month.
pub open spec fn valid_ymd(y: int, m: int, d: int) -> bool {
    &&& -9999 <= y <= 9999
    &&& 1 <= m <= 12
    &&& 1 <= d <= spec_days_in_month(y, m)
}

/// The Julian day number of the calendar date `(y, m, d)`, as the `time`
/// crate computes it.
pub uninterp spec fn julian_day_of(y: int, m: int, d: int) -> int;

/// Relies on `time::Date::from_calendar_date` and `time::Date::to_julian_day`:
/// the conversion succeeds exactly on the dates the crate represents (year
/// within `±9999`, day within the month), and the day number is a function of
/// the calendar date alone.
#[verifier::external_body]
pub(crate) fn julian_of_ymd(year: i32, month: u8, day: u8) -> (r: Option<i32>)
    ensures
        r is Some <==> valid_ymd(year as int, month as int, day as int),
        r is Some ==> r->0 as int == julian_day_of(year as int, month as int, day as int),
{
    let m = match time::Month::try_from(month) {
        Ok(m) => m,
        Err(_) => return None,
    };
    match time::Date::from_calendar_date(year, m, day) {
        Ok(d) => Some(d.to_julian_day()),
        Err(_) => None,
    }
}

/// Relies on `time::OffsetDateTime::now_utc` and `time::Date::to_julian_day`
/// for the current UTC day. The result depends on the clock, so nothing is
/// promised beyond the `i32` range the signature gives.
#[verifier::external_body]
pub(crate) fn today_julian() -> i32 {
    time::OffsetDateTime::now_utc().date().to_julian_day()
}

/// The normalizer cutoff of one fetch: today's day number together with the
/// day number `LOOKBACK_DAYS` earlier. All rows of one fetch share the cutoff.
pub fn current_lookback_cutoff() -> (r: (i64, i64))
    ensures
        r.1 == r.0 - LOOKBACK_DAYS,
{
    let today: i64 = today_julian() as i64;
    (today, today - LOOKBACK_DAYS)
}

} // verus!
