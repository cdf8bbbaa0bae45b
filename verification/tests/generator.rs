use nag_core::models::ChoreWithLastCompletion;
use nag_core::models::NotificationChannel;
use nag_core::models::ScheduleType;
use nag_core::notify::format_event_body;
use nag_core::notify::format_event_title;
use nag_core::notify::generate_due_events_once;
use nag_core::store::NotificationRepository;

const DAY: i64 = 86_400;

fn interval_chore(id: u128, name: &str, days: i32, created_at: i64) -> ChoreWithLastCompletion {
    ChoreWithLastCompletion {
        id,
        name: name.to_string(),
        description: None,
        schedule_type: ScheduleType::Interval,
        cron_schedule: None,
        interval_days: Some(days),
        interval_time_hour: Some(9),
        interval_time_minute: Some(0),
        created_at,
        updated_at: created_at,
        last_completed_at: None,
    }
}

#[test]
fn test_generate_due_events_creates_one_event_per_overdue_chore() {
    let created = 1_600_000_000;
    let chores = vec![
        interval_chore(1, "Vacuum", 1, created),
        interval_chore(2, "Laundry", 2, created),
    ];
    let channels = vec![NotificationChannel::Telegram];
    let now = created + 10 * DAY;

    let mut store = NotificationRepository::new();
    generate_due_events_once(&mut store, &chores, &channels, now);

    assert_eq!(store.events().len(), 2);
    assert_eq!(store.deliveries().len(), 2);
    let chore_ids: Vec<u128> = store.events().iter().map(|e| e.chore_id).collect();
    assert!(chore_ids.contains(&1));
    assert!(chore_ids.contains(&2));
}

#[test]
fn test_generate_due_events_twice_is_idempotent() {
    let created = 1_600_000_000;
    let chores = vec![interval_chore(1, "Vacuum", 1, created)];
    let channels = vec![NotificationChannel::Telegram];
    let now = created + 10 * DAY;

    let mut store = NotificationRepository::new();
    generate_due_events_once(&mut store, &chores, &channels, now);
    generate_due_events_once(&mut store, &chores, &channels, now + 60);

    assert_eq!(store.events().len(), 1);
    assert_eq!(store.deliveries().len(), 1);
}

#[test]
fn test_generate_skips_chores_that_are_not_overdue() {
    let created = 1_600_000_000;
    let mut fresh = interval_chore(1, "Vacuum", 30, created);
    fresh.last_completed_at = Some(created + 9 * DAY);
    let chores = vec![fresh];
    let channels = vec![NotificationChannel::Telegram];

    let mut store = NotificationRepository::new();
    generate_due_events_once(&mut store, &chores, &channels, created + 10 * DAY);

    assert!(store.events().is_empty());
    assert!(store.deliveries().is_empty());
}

#[test]
fn test_event_title_and_body_text() {
    let title = format_event_title("Vacuum");
    assert_eq!(title, "Chore due: Vacuum");

    let due_at = 1_700_000_000;
    let body = format_event_body("Vacuum", due_at);
    let stamp = chrono::DateTime::<chrono::Utc>::from_timestamp(due_at, 0)
        .unwrap()
        .format("%Y-%m-%d %H:%M")
        .to_string();
    assert_eq!(body, format!("Vacuum is due at {} UTC.", stamp));
    // The rendered instant is the concrete calendar text, not an echo.
    assert_eq!(body, "Vacuum is due at 2023-11-14 22:13 UTC.");
}

#[test]
fn test_generated_event_carries_formatted_texts() {
    let created = 1_600_000_000;
    let chores = vec![interval_chore(5, "Dishes", 1, created)];
    let channels = vec![NotificationChannel::Telegram];
    let now = created + 3 * DAY;

    let mut store = NotificationRepository::new();
    generate_due_events_once(&mut store, &chores, &channels, now);

    assert_eq!(store.events().len(), 1);
    let event = &store.events()[0];
    assert_eq!(event.title, "Chore due: Dishes");
    assert!(event.body.starts_with("Dishes is due at "));
    assert!(event.body.ends_with(" UTC."));
    let expected_due = (created / DAY + 1) * DAY + 9 * 3600;
    assert_eq!(event.due_at, expected_due);
}
