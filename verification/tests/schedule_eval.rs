use nag_core::models::ChoreWithLastCompletion;
use nag_core::models::ScheduleType;
use nag_core::schedule::ChoreService;

const DAY: i64 = 86_400;

fn chore(schedule_type: ScheduleType) -> ChoreWithLastCompletion {
    ChoreWithLastCompletion {
        id: 1,
        name: "Vacuum".to_string(),
        description: None,
        schedule_type,
        cron_schedule: None,
        interval_days: None,
        interval_time_hour: None,
        interval_time_minute: None,
        created_at: 1_600_000_000,
        updated_at: 1_600_000_000,
        last_completed_at: None,
    }
}

#[test]
fn test_interval_due_never_completed_scenario() {
    // Interval of one day at 09:00, never completed, evaluated two days
    // after creation: overdue, due the day after creation at 09:00 UTC.
    let mut c = chore(ScheduleType::Interval);
    c.interval_days = Some(1);
    c.interval_time_hour = Some(9);
    let created = c.created_at;
    let now = created + 2 * DAY;

    let info = ChoreService::compute_due_info(&c, now).expect("evaluates");
    assert!(info.is_overdue);
    let expected = (created / DAY + 1) * DAY + 9 * 3600;
    assert_eq!(info.next_due, Some(expected));
    // Cross-check the calendar rendering of the expected instant.
    let dt = chrono::DateTime::<chrono::Utc>::from_timestamp(expected, 0).unwrap();
    assert_eq!(dt.format("%H:%M").to_string(), "09:00");
}

#[test]
fn test_interval_chore_completed_just_now_not_overdue() {
    let mut c = chore(ScheduleType::Interval);
    c.interval_days = Some(1);
    let now = 1_700_000_000;
    c.last_completed_at = Some(now);

    let info = ChoreService::compute_due_info(&c, now).expect("evaluates");
    assert!(!info.is_overdue);
    assert!(info.next_due.is_some());
}

#[test]
fn test_cron_chore_long_overdue() {
    // A daily cron chore last completed years ago is overdue, with the
    // next occurrence right after that old completion.
    let mut c = chore(ScheduleType::Cron);
    c.cron_schedule = Some("0 9 * * *".to_string());
    c.last_completed_at = Some(1_500_000_000);
    let now = 1_700_000_000;

    let info = ChoreService::compute_due_info(&c, now).expect("evaluates");
    assert!(info.is_overdue);
    let due = info.next_due.expect("cron occurrence");
    assert!(due > 1_500_000_000);
    assert!(due <= 1_500_000_000 + DAY);
    let dt = chrono::DateTime::<chrono::Utc>::from_timestamp(due, 0).unwrap();
    assert_eq!(dt.format("%H:%M:%S").to_string(), "09:00:00");
}

#[test]
fn test_cron_malformed_schedule_skipped() {
    let mut c = chore(ScheduleType::Cron);
    c.cron_schedule = Some("not a cron".to_string());
    assert!(ChoreService::compute_due_info(&c, 1_700_000_000).is_none());

    // A cron chore without an expression is skipped too.
    let c2 = chore(ScheduleType::Cron);
    assert!(ChoreService::compute_due_info(&c2, 1_700_000_000).is_none());
}

#[test]
fn test_interval_out_of_range_time_skipped() {
    let mut c = chore(ScheduleType::Interval);
    c.interval_days = Some(1);
    c.interval_time_hour = Some(24);
    assert!(ChoreService::compute_due_info(&c, 1_700_000_000).is_none());

    let mut c2 = chore(ScheduleType::Interval);
    c2.interval_days = Some(1);
    c2.interval_time_minute = Some(60);
    assert!(ChoreService::compute_due_info(&c2, 1_700_000_000).is_none());
}

#[test]
fn test_once_in_a_while_semantics() {
    let c = chore(ScheduleType::OnceInAWhile);
    let now = 1_700_000_000;

    let info = ChoreService::compute_due_info(&c, now).expect("always evaluates");
    assert_eq!(info.next_due, None);
    assert!(!info.is_overdue);

    // Never in the due view, present in the upcoming view.
    let chores = vec![c];
    let due_only = ChoreService::get_due_chores(&chores, now, false);
    assert!(due_only.is_empty());
    let upcoming = ChoreService::get_due_chores(&chores, now, true);
    assert_eq!(upcoming.len(), 1);
    assert_eq!(upcoming[0].next_due, None);
    assert!(!upcoming[0].is_overdue);
}

#[test]
fn test_get_due_chores_sorted_soonest_first_nones_last() {
    let mut a = chore(ScheduleType::Interval);
    a.id = 1;
    a.interval_days = Some(3);
    let mut b = chore(ScheduleType::Interval);
    b.id = 2;
    b.interval_days = Some(1);
    let mut c = chore(ScheduleType::OnceInAWhile);
    c.id = 3;
    let mut d = chore(ScheduleType::Interval);
    d.id = 4;
    d.interval_days = Some(2);

    let now = a.created_at + 10 * DAY;
    let result = ChoreService::get_due_chores(&vec![a, b, c, d], now, true);
    let ids: Vec<u128> = result.iter().map(|i| i.chore.id).collect();
    assert_eq!(ids, vec![2, 4, 1, 3]);
}

#[test]
fn test_get_due_chores_ties_keep_input_order() {
    // Two chores with the same computed due instant must come out in
    // input order, whichever way they are listed.
    let mut a = chore(ScheduleType::Interval);
    a.id = 10;
    a.interval_days = Some(1);
    let mut b = chore(ScheduleType::Interval);
    b.id = 20;
    b.interval_days = Some(1);
    let now = a.created_at + 5 * DAY;

    let first = ChoreService::get_due_chores(&vec![a.clone(), b.clone()], now, false);
    assert_eq!(first.iter().map(|i| i.chore.id).collect::<Vec<_>>(), vec![10, 20]);
    let second = ChoreService::get_due_chores(&vec![b, a], now, false);
    assert_eq!(second.iter().map(|i| i.chore.id).collect::<Vec<_>>(), vec![20, 10]);
}

#[test]
fn test_validate_cron_schedule_frequency_floor() {
    let now = 1_700_000_000;
    // Every minute: rejected as too frequent.
    let err = ChoreService::validate_cron_schedule("* * * * *", now).unwrap_err();
    assert_eq!(err, "Schedule is too frequent. Minimum interval is 1 hour.");
    // Top of every hour: accepted.
    assert!(ChoreService::validate_cron_schedule("0 * * * *", now).is_ok());
    // Daily: accepted.
    assert!(ChoreService::validate_cron_schedule("0 9 * * *", now).is_ok());
    // Garbage: rejected as unparseable.
    let err = ChoreService::validate_cron_schedule("not a cron", now).unwrap_err();
    assert_eq!(err, "Schedule is not a valid cron expression");
}

#[test]
fn test_validate_interval_schedule_bounds() {
    assert!(ChoreService::validate_interval_schedule(0, None, None).is_err());
    assert!(ChoreService::validate_interval_schedule(500, None, None).is_err());
    assert!(ChoreService::validate_interval_schedule(1, None, None).is_ok());
    assert!(ChoreService::validate_interval_schedule(365, None, None).is_ok());

    let err = ChoreService::validate_interval_schedule(0, None, None).unwrap_err();
    assert_eq!(err, "Interval must be at least 1 day(s)");
    let err = ChoreService::validate_interval_schedule(500, None, None).unwrap_err();
    assert_eq!(err, "Interval cannot exceed 365 days (1 year)");
    let err = ChoreService::validate_interval_schedule(7, Some(24), None).unwrap_err();
    assert_eq!(err, "Hour must be between 0 and 23");
    let err = ChoreService::validate_interval_schedule(7, Some(9), Some(60)).unwrap_err();
    assert_eq!(err, "Minute must be between 0 and 59");
    assert!(ChoreService::validate_interval_schedule(7, Some(23), Some(59)).is_ok());
}
