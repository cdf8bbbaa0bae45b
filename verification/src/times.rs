//! Timestamps and the calendar arithmetic of interval schedules.
//!
//! A point in time is a count of seconds since the Unix epoch, held in an
//! `i64`. The library only ever works with instants between the epoch and
//! the end of year 9999, which is the range `ts_in_range` describes; the
//! store and the evaluator require it of every stored timestamp.

use vstd::prelude::*;

verus! {

/// Seconds in a calendar day.
pub const SECONDS_PER_DAY: i64 = 86400;

/// Seconds in an hour.
pub const SECONDS_PER_HOUR: i64 = 3600;

/// Seconds in a minute.
pub const SECONDS_PER_MINUTE: i64 = 60;

/// Last representable instant: 9999-12-31 23:59:59 UTC.
pub const MAX_TIMESTAMP: i64 = 253402300799;

/// The timestamps this library stores: from the epoch to the end of 9999.
pub open spec fn ts_in_range(t: i64) -> bool {
    0 <= t <= MAX_TIMESTAMP
}

/// The day number (days since the epoch) an instant falls on.
pub open spec fn spec_day_of(t: int) -> int {
    t / (SECONDS_PER_DAY as int)
}

/// The due instant of an interval schedule: `days` calendar days after the
/// day `base` falls on, at `hour:minute` UTC.
pub open spec fn spec_interval_due(base: int, days: int, hour: int, minute: int) -> int {
    (spec_day_of(base) + days) * (SECONDS_PER_DAY as int) + hour * (SECONDS_PER_HOUR as int)
        + minute * (SECONDS_PER_MINUTE as int)
}

/// Day number of a timestamp in the stored range.
pub fn day_of_timestamp(t: i64) -> (d: i64)
    requires
        ts_in_range(t),
    ensures
        d == spec_day_of(t as int),
        0 <= d <= MAX_TIMESTAMP / SECONDS_PER_DAY,
{
    t / SECONDS_PER_DAY
}

/// Compute the due instant of an interval schedule.
///
/// Works for any `i32` day count, so a stored chore with an out-of-policy
/// interval still evaluates rather than aborting a batch; the result may
/// then lie outside the stored timestamp range, which is harmless for the
/// overdue comparison it feeds.
pub fn interval_due_at(base: i64, days: i32, hour: i32, minute: i32) -> (due: i64)
    requires
        ts_in_range(base),
        0 <= hour <= 23,
        0 <= minute <= 59,
    ensures
        due == spec_interval_due(base as int, days as int, hour as int, minute as int),
{
    let day: i64 = day_of_timestamp(base);
    let target_day: i64 = day + days as i64;
    target_day * SECONDS_PER_DAY + hour as i64 * SECONDS_PER_HOUR + minute as i64
        * SECONDS_PER_MINUTE
}

} // verus!
