//! Core engine of a recurring-chore reminder service.
//!
//! The library computes, from a chore's schedule and completion history,
//! when the chore is next due; collects the ordered set of due chores;
//! turns overdue chores into deduplicated notification events with one
//! pending delivery per channel; and drives a delivery state machine with
//! a bounded retry budget. Persistence, HTTP plumbing and the concrete
//! chat transport live outside this crate and hand it plain values.

pub mod config;
pub mod cron;
pub mod due;
pub mod models;
pub mod notify;
pub mod paths;
pub mod requests;
pub mod schedule;
pub mod store;
pub mod tags;
pub mod telegram;
pub mod times;
