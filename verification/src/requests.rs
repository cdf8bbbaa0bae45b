//! Chore request models and the validation that guards the store.
//!
//! A schedule arrives as one tagged variant and is checked before it is
//! stored: cron expressions must parse and fire at most once an hour,
//! interval day counts must lie within one year. Valid input is
//! flattened into the parameter records the external store takes.

use vstd::prelude::*;
use vstd::string::StringExecFns;

use crate::models::ScheduleType;
use crate::schedule::ChoreService;
use crate::schedule::spec_cron_schedule_error;
use crate::schedule::spec_interval_schedule_error;
use crate::times::ts_in_range;

verus! {

/// Schedule specification for creating or updating chores.
#[derive(Debug)]
pub enum ScheduleInput {
    /// Fixed schedule based on a cron expression.
    Cron { cron_schedule: String },
    /// Relative schedule: days after the last completion, at an
    /// optional time of day.
    Interval {
        interval_days: i32,
        interval_time_hour: Option<i32>,
        interval_time_minute: Option<i32>,
    },
    /// No automatic due date.
    OnceInAWhile,
}

/// Request body for creating a new chore.
#[derive(Debug)]
pub struct CreateChoreRequest {
    pub name: String,
    pub description: Option<String>,
    pub schedule: ScheduleInput,
    pub tags: Vec<String>,
}

/// Request body for updating a chore. An absent field leaves the value
/// alone; a present `description` of `None` clears it.
#[derive(Debug)]
pub struct UpdateChoreRequest {
    pub name: Option<String>,
    pub description: Option<Option<String>>,
    pub schedule: Option<ScheduleInput>,
    pub tags: Option<Vec<String>>,
}

/// Query parameters of the due-chores read.
#[derive(Debug)]
pub struct DueChoresQuery {
    /// Include chores that are not yet overdue.
    pub include_upcoming: bool,
    /// Keep only chores carrying this tag.
    pub tag: Option<String>,
}

/// Parameters for creating a chore, schedule flattened and validated.
#[derive(Debug)]
pub struct CreateChoreParams {
    pub name: String,
    pub description: Option<String>,
    pub schedule_type: ScheduleType,
    pub cron_schedule: Option<String>,
    pub interval_days: Option<i32>,
    pub interval_time_hour: Option<i32>,
    pub interval_time_minute: Option<i32>,
}

/// Parameters for replacing a chore's schedule, flattened and validated.
#[derive(Debug)]
pub struct UpdateScheduleParams {
    pub schedule_type: ScheduleType,
    pub cron_schedule: Option<String>,
    pub interval_days: Option<i32>,
    pub interval_time_hour: Option<i32>,
    pub interval_time_minute: Option<i32>,
}

/// Why a schedule input was rejected at instant `now`, if it was: the
/// variant's own validation error under the variant's label.
pub open spec fn spec_schedule_input_error(input: ScheduleInput, now: i64) -> Option<Seq<char>> {
    match input {
        ScheduleInput::Cron { cron_schedule } => match spec_cron_schedule_error(
            cron_schedule@,
            now,
        ) {
            Some(e) => Some("Invalid cron schedule: "@ + e),
            None => None,
        },
        ScheduleInput::Interval { interval_days, interval_time_hour, interval_time_minute } => match spec_interval_schedule_error(
            interval_days,
            interval_time_hour,
            interval_time_minute,
        ) {
            Some(e) => Some("Invalid interval schedule: "@ + e),
            None => None,
        },
        ScheduleInput::OnceInAWhile => None,
    }
}

/// The flattened schedule fields of a valid input.
pub open spec fn spec_schedule_params(input: ScheduleInput) -> UpdateScheduleParams {
    match input {
        ScheduleInput::Cron { cron_schedule } => UpdateScheduleParams {
            schedule_type: ScheduleType::Cron,
            cron_schedule: Some(cron_schedule),
            interval_days: None,
            interval_time_hour: None,
            interval_time_minute: None,
        },
        ScheduleInput::Interval { interval_days, interval_time_hour, interval_time_minute } => UpdateScheduleParams {
            schedule_type: ScheduleType::Interval,
            cron_schedule: None,
            interval_days: Some(interval_days),
            interval_time_hour,
            interval_time_minute,
        },
        ScheduleInput::OnceInAWhile => UpdateScheduleParams {
            schedule_type: ScheduleType::OnceInAWhile,
            cron_schedule: None,
            interval_days: None,
            interval_time_hour: None,
            interval_time_minute: None,
        },
    }
}

/// Validate a schedule input at instant `now` and flatten it into the
/// store's parameter record; rejected input yields the labelled error.
pub fn schedule_params_from_input(input: ScheduleInput, now: i64) -> (r: Result<
    UpdateScheduleParams,
    String,
>)
    requires
        ts_in_range(now),
    ensures
        r matches Ok(p) ==> p == spec_schedule_params(input) && spec_schedule_input_error(
            input,
            now,
        ) is None,
        r matches Err(m) ==> Some(m@) == spec_schedule_input_error(input, now),
{
    match input {
        ScheduleInput::Cron { cron_schedule } => {
            match ChoreService::validate_cron_schedule(cron_schedule.as_str(), now) {
                Ok(_) => Ok(
                    UpdateScheduleParams {
                        schedule_type: ScheduleType::Cron,
                        cron_schedule: Some(cron_schedule),
                        interval_days: None,
                        interval_time_hour: None,
                        interval_time_minute: None,
                    },
                ),
                Err(e) => {
                    let mut m = String::from_str("Invalid cron schedule: ");
                    m.append(e.as_str());
                    Err(m)
                },
            }
        },
        ScheduleInput::Interval { interval_days, interval_time_hour, interval_time_minute } => {
            match ChoreService::validate_interval_schedule(
                interval_days,
                interval_time_hour,
                interval_time_minute,
            ) {
                Ok(_) => Ok(
                    UpdateScheduleParams {
                        schedule_type: ScheduleType::Interval,
                        cron_schedule: None,
                        interval_days: Some(interval_days),
                        interval_time_hour,
                        interval_time_minute,
                    },
                ),
                Err(e) => {
                    let mut m = String::from_str("Invalid interval schedule: ");
                    m.append(e.as_str());
                    Err(m)
                },
            }
        },
        ScheduleInput::OnceInAWhile => Ok(
            UpdateScheduleParams {
                schedule_type: ScheduleType::OnceInAWhile,
                cron_schedule: None,
                interval_days: None,
                interval_time_hour: None,
                interval_time_minute: None,
            },
        ),
    }
}

/// Validate a creation request's schedule at instant `now` and build
/// the store's creation record around it.
pub fn chore_params_from_request(req: CreateChoreRequest, now: i64) -> (r: Result<
    CreateChoreParams,
    String,
>)
    requires
        ts_in_range(now),
    ensures
        r matches Ok(p) ==> {
            let sp = spec_schedule_params(req.schedule);
            &&& spec_schedule_input_error(req.schedule, now) is None
            &&& p.name == req.name
            &&& p.description == req.description
            &&& p.schedule_type == sp.schedule_type
            &&& p.cron_schedule == sp.cron_schedule
            &&& p.interval_days == sp.interval_days
            &&& p.interval_time_hour == sp.interval_time_hour
            &&& p.interval_time_minute == sp.interval_time_minute
        },
        r matches Err(m) ==> Some(m@) == spec_schedule_input_error(req.schedule, now),
{
    let CreateChoreRequest { name, description, schedule, tags: _ } = req;
    match schedule_params_from_input(schedule, now) {
        Ok(sp) => Ok(
            CreateChoreParams {
                name,
                description,
                schedule_type: sp.schedule_type,
                cron_schedule: sp.cron_schedule,
                interval_days: sp.interval_days,
                interval_time_hour: sp.interval_time_hour,
                interval_time_minute: sp.interval_time_minute,
            },
        ),
        Err(e) => Err(e),
    }
}

} // verus!
