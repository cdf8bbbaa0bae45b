//! The chore and notification records the engine works on.
//!
//! Chores are owned by an external store and read here; notification
//! events and deliveries are owned by the notification store of this
//! crate. Identifiers are plain 128-bit values, timestamps are seconds
//! since the epoch, so every field is visible to the verifier.

use vstd::prelude::*;

use crate::times::ts_in_range;

verus! {

/// How a chore recurs.
#[derive(Debug, Clone, Copy, PartialEq, Eq, Structural)]
pub enum ScheduleType {
    /// Fixed calendar schedule given by a cron expression.
    Cron,
    /// A number of days after the last completion, at a fixed time of day.
    Interval,
    /// No automatic due date; tracked manually.
    OnceInAWhile,
}

/// The kind of a notification event. Only due reminders exist today.
#[derive(Debug, Clone, Copy, PartialEq, Eq, Structural)]
pub enum NotificationEventType {
    Due,
}

/// A transport over which a notification can go out.
#[derive(Debug, Clone, Copy, PartialEq, Eq, Structural)]
pub enum NotificationChannel {
    Telegram,
}

/// Where a delivery stands in its life cycle.
#[derive(Debug, Clone, Copy, PartialEq, Eq, Structural)]
pub enum NotificationDeliveryStatus {
    Pending,
    Failed,
    Delivered,
}

/// A chore together with its most recent completion time, the sole input
/// of the schedule evaluator.
#[derive(Debug)]
pub struct ChoreWithLastCompletion {
    pub id: u128,
    pub name: String,
    pub description: Option<String>,
    pub schedule_type: ScheduleType,
    pub cron_schedule: Option<String>,
    pub interval_days: Option<i32>,
    pub interval_time_hour: Option<i32>,
    pub interval_time_minute: Option<i32>,
    pub created_at: i64,
    pub updated_at: i64,
    pub last_completed_at: Option<i64>,
}

impl ChoreWithLastCompletion {
    /// The timestamps of a stored chore lie in the range the library keeps.
    pub open spec fn wf(&self) -> bool {
        &&& ts_in_range(self.created_at)
        &&& match self.last_completed_at {
            Some(t) => ts_in_range(t),
            None => true,
        }
    }

    /// The instant the next due date is measured from: the last completion,
    /// or the creation time if the chore was never completed.
    pub open spec fn spec_base_time(&self) -> i64 {
        match self.last_completed_at {
            Some(t) => t,
            None => self.created_at,
        }
    }

    /// Base time for schedule evaluation.
    pub fn base_time(&self) -> (t: i64)
        ensures
            t == self.spec_base_time(),
    {
        match self.last_completed_at {
            Some(t) => t,
            None => self.created_at,
        }
    }
}

impl Clone for ChoreWithLastCompletion {
    fn clone(&self) -> (r: Self)
        ensures
            r == *self,
    {
        ChoreWithLastCompletion {
            id: self.id,
            name: self.name.clone(),
            description: match &self.description {
                Some(d) => Some(d.clone()),
                None => None,
            },
            schedule_type: self.schedule_type,
            cron_schedule: match &self.cron_schedule {
                Some(e) => Some(e.clone()),
                None => None,
            },
            interval_days: self.interval_days,
            interval_time_hour: self.interval_time_hour,
            interval_time_minute: self.interval_time_minute,
            created_at: self.created_at,
            updated_at: self.updated_at,
            last_completed_at: self.last_completed_at,
        }
    }
}

/// A deduplicated notification event: at most one exists per
/// `(chore, event type, due instant)`.
#[derive(Debug)]
pub struct NotificationEvent {
    pub id: u128,
    pub chore_id: u128,
    pub event_type: NotificationEventType,
    pub due_at: i64,
    pub title: String,
    pub body: String,
    pub created_at: i64,
}

impl Clone for NotificationEvent {
    fn clone(&self) -> (r: Self)
        ensures
            r == *self,
    {
        NotificationEvent {
            id: self.id,
            chore_id: self.chore_id,
            event_type: self.event_type,
            due_at: self.due_at,
            title: self.title.clone(),
            body: self.body.clone(),
            created_at: self.created_at,
        }
    }
}

/// The delivery state of one event on one channel: at most one exists per
/// `(event, channel)`.
#[derive(Debug)]
pub struct NotificationDelivery {
    pub id: u128,
    pub event_id: u128,
    pub channel: NotificationChannel,
    pub status: NotificationDeliveryStatus,
    pub attempt_count: u32,
    pub last_error: Option<String>,
    pub last_attempted_at: Option<i64>,
    pub delivered_at: Option<i64>,
    pub created_at: i64,
    pub updated_at: i64,
}

impl Clone for NotificationDelivery {
    fn clone(&self) -> (r: Self)
        ensures
            r == *self,
    {
        NotificationDelivery {
            id: self.id,
            event_id: self.event_id,
            channel: self.channel,
            status: self.status,
            attempt_count: self.attempt_count,
            last_error: match &self.last_error {
                Some(e) => Some(e.clone()),
                None => None,
            },
            last_attempted_at: self.last_attempted_at,
            delivered_at: self.delivered_at,
            created_at: self.created_at,
            updated_at: self.updated_at,
        }
    }
}

/// One unit of outstanding delivery work: a delivery joined with the
/// event it belongs to, as handed to a channel sender.
#[derive(Debug)]
pub struct PendingNotification {
    pub delivery_id: u128,
    pub event_id: u128,
    pub channel: NotificationChannel,
    pub attempt_count: u32,
    pub chore_id: u128,
    pub event_type: NotificationEventType,
    pub due_at: i64,
    pub title: String,
    pub body: String,
}

impl Clone for PendingNotification {
    fn clone(&self) -> (r: Self)
        ensures
            r == *self,
    {
        PendingNotification {
            delivery_id: self.delivery_id,
            event_id: self.event_id,
            channel: self.channel,
            attempt_count: self.attempt_count,
            chore_id: self.chore_id,
            event_type: self.event_type,
            due_at: self.due_at,
            title: self.title.clone(),
            body: self.body.clone(),
        }
    }
}

} // verus!
