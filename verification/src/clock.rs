//! The wall clock and the calendar.

use vstd::prelude::*;

verus! {

/// Day of the month, hour and minute of a moment.
#[derive(Debug, Clone, Copy, PartialEq, Eq, Structural)]
pub struct DayTime {
    /// Day of the month, 1 to 31.
    pub day: u32,
    /// Hour of the day, 0 to 23.
    pub hour: u32,
    /// Minute of the hour, 0 to 59.
    pub minute: u32,
}

/// The day of the month, in UTC, of a second of Unix time, as `chrono` gives it;
/// none for a second that `chrono` cannot represent as a date.
pub uninterp spec fn utc_day(timestamp: i64) -> Option<u32>;

/// The hour of the day, in UTC, of a second of Unix time.
pub open spec fn utc_hour(timestamp: i64) -> int {
    (timestamp as int % 86_400) / 3_600
}

/// The minute of the hour, in UTC, of a second of Unix time.
pub open spec fn utc_minute(timestamp: i64) -> int {
    ((timestamp as int % 86_400) / 60) % 60
}

/// The current time in whole seconds since the Unix epoch, read with
/// `chrono::Utc::now` and `DateTime::timestamp`.
///
/// Trusted, and nothing is claimed of the value: it differs from call to call.
#[verifier::external_body]
pub(crate) fn unix_now() -> i64 {
    chrono::Utc::now().timestamp()
}

/// Day of the month, hour and minute, in UTC, of a second of Unix time: the second
/// is made a date by `chrono::DateTime::from_timestamp`, and read by
/// `Datelike::day`, `Timelike::hour` and `Timelike::minute`.
///
/// Trusted: there is a date exactly where `chrono` can represent the second; the
/// day depends on the second alone and lies from 1 to 31; hour and minute are those
/// of the seconds past midnight, without leap seconds.
#[verifier::external_body]
pub(crate) fn utc_day_time(timestamp: i64) -> (r: Option<DayTime>)
    ensures
        match r {
            Some(t) => utc_day(timestamp) == Some(t.day) && 1 <= t.day <= 31 && t.hour
                == utc_hour(timestamp) && t.minute == utc_minute(timestamp),
            None => utc_day(timestamp) is None,
        },
{
    match chrono::DateTime::<chrono::Utc>::from_timestamp(timestamp, 0) {
        Some(t) => Some(
            DayTime {
                day: chrono::Datelike::day(&t),
                hour: chrono::Timelike::hour(&t),
                minute: chrono::Timelike::minute(&t),
            },
        ),
        None => None,
    }
}

} // verus!
