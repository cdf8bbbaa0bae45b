//! The schedule evaluator: when is a chore next due, and is it overdue.
//!
//! `ChoreService::compute_due_info` is a pure function of a chore and the
//! current instant. A malformed schedule (an unparseable cron expression,
//! a missing or out-of-range field) yields `None`, so one bad chore can
//! be skipped without aborting a batch. Validation of new schedules lives
//! here too: cron expressions must fire at most once an hour, interval
//! day counts must lie within one year.

use vstd::prelude::*;
use vstd::string::StringExecFns;

use crate::cron::cron_next_after;
use crate::cron::cron_next_occurrence;
use crate::models::ChoreWithLastCompletion;
use crate::models::ScheduleType;
use crate::times::spec_day_of;
use crate::times::spec_interval_due;
use crate::times::interval_due_at;
use crate::times::ts_in_range;

verus! {

/// Smallest accepted interval between occurrences of an interval schedule.
pub const MIN_INTERVAL_DAYS: i32 = 1;

/// Largest accepted interval between occurrences of an interval schedule:
/// one year.
pub const MAX_INTERVAL_DAYS: i32 = 365;

/// Smallest accepted gap between consecutive cron occurrences, in seconds.
pub const MIN_CRON_GAP_SECONDS: i64 = 3600;

/// A chore with its computed due information.
#[derive(Debug)]
pub struct ChoreWithDueInfo {
    pub chore: ChoreWithLastCompletion,
    pub next_due: Option<i64>,
    pub is_overdue: bool,
}

/// What the evaluator returns for a chore at instant `now`: `None` for a
/// malformed schedule, otherwise the next due instant (absent for
/// `OnceInAWhile`) and whether it has already passed.
pub open spec fn spec_compute_due_info(c: ChoreWithLastCompletion, now: i64) -> Option<
    ChoreWithDueInfo,
> {
    match c.schedule_type {
        ScheduleType::Cron => match c.cron_schedule {
            None => None,
            Some(expr) => match cron_next_after(expr@, c.spec_base_time() as int) {
                None => None,
                Some(d) => Some(
                    ChoreWithDueInfo { chore: c, next_due: Some(d), is_overdue: d <= now },
                ),
            },
        },
        ScheduleType::Interval => match c.interval_days {
            None => None,
            Some(days) => {
                let hour = match c.interval_time_hour {
                    Some(h) => h,
                    None => 0,
                };
                let minute = match c.interval_time_minute {
                    Some(m) => m,
                    None => 0,
                };
                if 0 <= hour <= 23 && 0 <= minute <= 59 {
                    let d = spec_interval_due(
                        c.spec_base_time() as int,
                        days as int,
                        hour as int,
                        minute as int,
                    );
                    Some(
                        ChoreWithDueInfo { chore: c, next_due: Some(d as i64), is_overdue: d <= now },
                    )
                } else {
                    None
                }
            },
        },
        ScheduleType::OnceInAWhile => Some(
            ChoreWithDueInfo { chore: c, next_due: None, is_overdue: false },
        ),
    }
}

/// Why a candidate schedule was rejected, if it was: the error text of
/// `validate_interval_schedule`.
pub open spec fn spec_interval_schedule_error(
    days: i32,
    hour: Option<i32>,
    minute: Option<i32>,
) -> Option<Seq<char>> {
    if days < MIN_INTERVAL_DAYS {
        Some("Interval must be at least 1 day(s)"@)
    } else if days > MAX_INTERVAL_DAYS {
        Some("Interval cannot exceed 365 days (1 year)"@)
    } else if (hour matches Some(h) && !(0 <= h <= 23)) {
        Some("Hour must be between 0 and 23"@)
    } else if (minute matches Some(m) && !(0 <= m <= 59)) {
        Some("Minute must be between 0 and 59"@)
    } else {
        None
    }
}

/// Why a candidate cron expression was rejected, if it was: the error
/// text of `validate_cron_schedule`.
pub open spec fn spec_cron_schedule_error(expr: Seq<char>, now: i64) -> Option<Seq<char>> {
    match cron_next_after(expr, now as int) {
        None => Some("Schedule is not a valid cron expression"@),
        Some(first) => match cron_next_after(expr, first as int) {
            None => Some("Schedule is not a valid cron expression"@),
            Some(second) => if second - first < MIN_CRON_GAP_SECONDS {
                Some("Schedule is too frequent. Minimum interval is 1 hour."@)
            } else {
                None
            },
        },
    }
}

/// A cron expression whose two soonest occurrences lie less than an
/// hour apart is rejected by validation, with the frequency error.
pub proof fn lemma_frequent_cron_rejected(expr: Seq<char>, now: i64, first: i64, second: i64)
    requires
        cron_next_after(expr, now as int) == Some(first),
        cron_next_after(expr, first as int) == Some(second),
        second - first < MIN_CRON_GAP_SECONDS,
    ensures
        spec_cron_schedule_error(expr, now) == Some(
            "Schedule is too frequent. Minimum interval is 1 hour."@,
        ),
{
}

/// A cron chore whose next occurrence after its base time has already
/// passed is reported overdue, with that occurrence as its due instant.
pub proof fn lemma_cron_past_occurrence_overdue(c: ChoreWithLastCompletion, now: i64, d: i64)
    requires
        c.wf(),
        c.schedule_type == ScheduleType::Cron,
        (c.cron_schedule matches Some(e) && cron_next_after(e@, c.spec_base_time() as int) == Some(
            d,
        )),
        d <= now,
    ensures
        spec_compute_due_info(c, now) == Some(
            ChoreWithDueInfo { chore: c, next_due: Some(d), is_overdue: true },
        ),
{
}

/// An interval chore completed this very instant is not overdue: its
/// next due date lies at least the rest of the day ahead.
pub proof fn lemma_completed_now_not_overdue(c: ChoreWithLastCompletion, now: i64)
    requires
        c.wf(),
        c.schedule_type == ScheduleType::Interval,
        c.last_completed_at == Some(now),
        (c.interval_days matches Some(d) && d >= MIN_INTERVAL_DAYS),
        (c.interval_time_hour matches Some(h) ==> 0 <= h <= 23),
        (c.interval_time_minute matches Some(m) ==> 0 <= m <= 59),
    ensures
        spec_compute_due_info(c, now) matches Some(info) && !info.is_overdue
            && info.next_due is Some,
{
    let days = c.interval_days->0;
    let hour: i32 = match c.interval_time_hour {
        Some(h) => h,
        None => 0,
    };
    let minute: i32 = match c.interval_time_minute {
        Some(m) => m,
        None => 0,
    };
    let day = spec_day_of(now as int);
    let due = spec_interval_due(now as int, days as int, hour as int, minute as int);
    assert(day * 86400 <= now < (day + 1) * 86400) by (nonlinear_arith)
        requires
            day == now as int / 86400,
            now >= 0,
    {}
    assert(due >= (day + days) * 86400);
    assert((day + days) * 86400 >= (day + 1) * 86400) by (nonlinear_arith)
        requires
            days >= 1,
    {}
    assert(due > now);
}

pub struct ChoreService;

impl ChoreService {
    /// Compute the next due time for a single chore.
    pub fn compute_due_info(chore: &ChoreWithLastCompletion, now: i64) -> (r: Option<
        ChoreWithDueInfo,
    >)
        requires
            chore.wf(),
        ensures
            r == spec_compute_due_info(*chore, now),
    {
        match chore.schedule_type {
            ScheduleType::Cron => Self::compute_cron_due(chore, now),
            ScheduleType::Interval => Self::compute_interval_due(chore, now),
            ScheduleType::OnceInAWhile => Some(
                ChoreWithDueInfo { chore: chore.clone(), next_due: None, is_overdue: false },
            ),
        }
    }

    /// Compute due info for a cron-based chore.
    fn compute_cron_due(chore: &ChoreWithLastCompletion, now: i64) -> (r: Option<ChoreWithDueInfo>)
        requires
            chore.wf(),
            chore.schedule_type == ScheduleType::Cron,
        ensures
            r == spec_compute_due_info(*chore, now),
    {
        let expr = match &chore.cron_schedule {
            Some(e) => e,
            None => {
                return None;
            },
        };
        let base = chore.base_time();
        match cron_next_occurrence(expr.as_str(), base) {
            Some(next) => Some(
                ChoreWithDueInfo {
                    chore: chore.clone(),
                    next_due: Some(next),
                    is_overdue: next <= now,
                },
            ),
            None => None,
        }
    }

    /// Compute due info for an interval-based chore.
    fn compute_interval_due(chore: &ChoreWithLastCompletion, now: i64) -> (r: Option<
        ChoreWithDueInfo,
    >)
        requires
            chore.wf(),
            chore.schedule_type == ScheduleType::Interval,
        ensures
            r == spec_compute_due_info(*chore, now),
    {
        let days = match chore.interval_days {
            Some(d) => d,
            None => {
                return None;
            },
        };
        let hour = match chore.interval_time_hour {
            Some(h) => h,
            None => 0,
        };
        let minute = match chore.interval_time_minute {
            Some(m) => m,
            None => 0,
        };
        if !(0 <= hour && hour <= 23 && 0 <= minute && minute <= 59) {
            return None;
        }
        let base = chore.base_time();
        let next_due = interval_due_at(base, days, hour, minute);
        Some(
            ChoreWithDueInfo {
                chore: chore.clone(),
                next_due: Some(next_due),
                is_overdue: next_due <= now,
            },
        )
    }

    /// Validate a cron schedule string against the current instant.
    ///
    /// Rejects expressions that do not parse and expressions whose two
    /// soonest consecutive occurrences are less than one hour apart.
    pub fn validate_cron_schedule(schedule: &str, now: i64) -> (r: Result<(), String>)
        requires
            ts_in_range(now),
        ensures
            r is Ok <==> spec_cron_schedule_error(schedule@, now) is None,
            r matches Err(m) ==> Some(m@) == spec_cron_schedule_error(schedule@, now),
    {
        let first = match cron_next_occurrence(schedule, now) {
            Some(t) => t,
            None => {
                return Err(String::from_str("Schedule is not a valid cron expression"));
            },
        };
        let second = match cron_next_occurrence(schedule, first) {
            Some(t) => t,
            None => {
                return Err(String::from_str("Schedule is not a valid cron expression"));
            },
        };
        if second - first < MIN_CRON_GAP_SECONDS {
            return Err(String::from_str("Schedule is too frequent. Minimum interval is 1 hour."));
        }
        Ok(())
    }

    /// Validate an interval schedule: day count within one year, and the
    /// optional time of day within the clock.
    pub fn validate_interval_schedule(days: i32, hour: Option<i32>, minute: Option<i32>) -> (r:
        Result<(), String>)
        ensures
            r is Ok <==> spec_interval_schedule_error(days, hour, minute) is None,
            r matches Err(m) ==> Some(m@) == spec_interval_schedule_error(days, hour, minute),
    {
        if days < MIN_INTERVAL_DAYS {
            return Err(String::from_str("Interval must be at least 1 day(s)"));
        }
        if days > MAX_INTERVAL_DAYS {
            return Err(String::from_str("Interval cannot exceed 365 days (1 year)"));
        }
        if let Some(h) = hour {
            if !(0 <= h && h <= 23) {
                return Err(String::from_str("Hour must be between 0 and 23"));
            }
        }
        if let Some(m) = minute {
            if !(0 <= m && m <= 59) {
                return Err(String::from_str("Minute must be between 0 and 59"));
            }
        }
        Ok(())
    }
}

} // verus!
