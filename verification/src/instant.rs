//! Instants and the calendar day they fall on.
//!
//! An instant is a count of whole seconds since the Unix epoch, in UTC.
//! Day boundaries come from the `chrono` calendar, which represents the
//! years -262143 to 262142.

use vstd::prelude::*;

verus! {

/// The first instant that the calendar represents.
pub const MIN_INSTANT: i64 = -8_334_601_228_800;

/// The last instant that the calendar represents.
pub const MAX_INSTANT: i64 = 8_210_266_876_799;

/// The instant lies in the span that the calendar represents.
pub open spec fn is_instant(t: i64) -> bool {
    MIN_INSTANT <= t <= MAX_INSTANT
}

/// The first instant of the UTC day that holds `t`.
pub open spec fn day_start(t: int) -> int {
    t - t % 86_400
}

/// The last instant of the UTC day that holds `t`.
pub open spec fn day_end(t: int) -> int {
    day_start(t) + 86_399
}

/// `due` lies after `now` and at most `minutes` minutes after it.
pub open spec fn due_within(now: i64, minutes: i32, due: i64) -> bool {
    now < due <= now + 60 * minutes
}

/// The instant at `hour:minute:second` on the UTC day that holds `t`.
///
/// Calls `chrono::DateTime::from_timestamp`, `DateTime::date_naive`,
/// `NaiveDate::and_hms_opt`, `NaiveDateTime::and_utc` and
/// `DateTime::timestamp`. Trusted: `from_timestamp` accepts every instant
/// in the calendar's span and splits it into a day count, rounded down,
/// and the second within that day; `and_hms_opt` accepts every time of
/// day below 24:00:00 and keeps the day; `timestamp` puts day and time
/// together again.
#[verifier::external_body]
fn time_on_day_of(t: i64, hour: u32, minute: u32, second: u32) -> (r: i64)
    requires
        is_instant(t),
        hour < 24,
        minute < 60,
        second < 60,
    ensures
        r == day_start(t as int) + 3600 * hour + 60 * minute + second,
{
    let day = chrono::DateTime::from_timestamp(t, 0).unwrap().date_naive();
    day.and_hms_opt(hour, minute, second).unwrap().and_utc().timestamp()
}

/// The first and the last instant of the UTC day that holds `now`.
pub fn day_bounds(now: i64) -> (r: (i64, i64))
    requires
        is_instant(now),
    ensures
        r.0 == day_start(now as int),
        r.1 == day_end(now as int),
        r.0 <= now <= r.1,
{
    let start = time_on_day_of(now, 0, 0, 0);
    let end = time_on_day_of(now, 23, 59, 59);
    (start, end)
}

/// Whether `due` lies after `now` and at most `minutes` minutes after it.
pub fn is_due_within(now: i64, minutes: i32, due: i64) -> (r: bool)
    ensures
        r == due_within(now, minutes, due),
{
    if due <= now {
        return false;
    }
    let ahead: i128 = (due as i128) - (now as i128);
    let window: i128 = 60 * (minutes as i128);
    ahead <= window
}

} // verus!
