use nag_core::models::NotificationChannel;
use nag_core::models::NotificationDeliveryStatus;
use nag_core::notify::NotificationChannelSender;
use nag_core::notify::dispatch_pending_once;
use nag_core::store::NotificationRepository;

const NOW: i64 = 1_700_000_000;

fn delivery_id_for_event(store: &NotificationRepository, event_id: u128) -> u128 {
    for d in store.deliveries().iter() {
        if d.event_id == event_id && d.channel == NotificationChannel::Telegram {
            return d.id;
        }
    }
    panic!("no delivery for event");
}

fn seed_delivery(store: &mut NotificationRepository) -> u128 {
    let event_id = store.upsert_due_event_with_deliveries(
        7,
        NOW,
        "Chore due".to_string(),
        "Test chore is due".to_string(),
        &vec![NotificationChannel::Telegram],
        NOW,
    );
    delivery_id_for_event(store, event_id)
}

struct FakeSender {
    channel: NotificationChannel,
    fail: bool,
}

impl NotificationChannelSender for FakeSender {
    // Ghost view of the channel; never called at runtime.
    fn spec_channel(&self) -> NotificationChannel {
        unreachable!()
    }

    fn channel(&self) -> NotificationChannel {
        self.channel
    }

    fn send(&self, _notification: &nag_core::models::PendingNotification) -> Result<(), String> {
        if self.fail {
            Err("simulated send failure".to_string())
        } else {
            Ok(())
        }
    }
}

#[test]
fn test_upsert_due_event_deduplicates_events_and_deliveries() {
    let mut store = NotificationRepository::new();
    let chore_id: u128 = 42;
    let due_at = NOW;

    let first_id = store.upsert_due_event_with_deliveries(
        chore_id,
        due_at,
        "Chore due: Vacuum".to_string(),
        "Vacuum is due".to_string(),
        &vec![NotificationChannel::Telegram],
        NOW,
    );
    let second_id = store.upsert_due_event_with_deliveries(
        chore_id,
        due_at,
        "Chore due: Vacuum".to_string(),
        "Vacuum is due".to_string(),
        &vec![NotificationChannel::Telegram],
        NOW + 60,
    );

    assert_eq!(first_id, second_id);
    assert_eq!(store.events().len(), 1);
    assert_eq!(store.deliveries().len(), 1);
}

#[test]
fn test_list_pending_filters_delivered_and_exhausted_failures() {
    let mut store = NotificationRepository::new();

    let channels = vec![NotificationChannel::Telegram];
    let event_a = store.upsert_due_event_with_deliveries(
        1,
        NOW,
        "A due".to_string(),
        "A".to_string(),
        &channels,
        NOW,
    );
    let event_b = store.upsert_due_event_with_deliveries(
        2,
        NOW + 1,
        "B due".to_string(),
        "B".to_string(),
        &channels,
        NOW,
    );
    let event_c = store.upsert_due_event_with_deliveries(
        3,
        NOW + 2,
        "C due".to_string(),
        "C".to_string(),
        &channels,
        NOW,
    );
    let event_d = store.upsert_due_event_with_deliveries(
        4,
        NOW + 3,
        "D due".to_string(),
        "D".to_string(),
        &channels,
        NOW,
    );

    let delivery_b = delivery_id_for_event(&store, event_b);
    let delivery_c = delivery_id_for_event(&store, event_c);
    let delivery_d = delivery_id_for_event(&store, event_d);

    store.mark_failed(delivery_b, "temporary".to_string(), NOW + 10);
    store.mark_delivered(delivery_c, NOW + 10);
    for _ in 0..5 {
        store.mark_failed(delivery_d, "retrying".to_string(), NOW + 10);
    }

    let pending = store.list_pending(50, 5);
    let event_ids: Vec<u128> = pending.iter().map(|p| p.event_id).collect();
    assert!(event_ids.contains(&event_a));
    assert!(event_ids.contains(&event_b));
    assert!(!event_ids.contains(&event_c));
    assert!(!event_ids.contains(&event_d));
}

#[test]
fn test_mark_failed_and_mark_delivered_transition_delivery_state() {
    let mut store = NotificationRepository::new();
    let event_id = store.upsert_due_event_with_deliveries(
        9,
        NOW,
        "Laundry due".to_string(),
        "Laundry is due".to_string(),
        &vec![NotificationChannel::Telegram],
        NOW,
    );
    let delivery_id = delivery_id_for_event(&store, event_id);

    store.mark_failed(delivery_id, "network timeout".to_string(), NOW + 5);

    let failed = store
        .deliveries()
        .iter()
        .find(|d| d.id == delivery_id)
        .expect("delivery present")
        .clone();
    assert_eq!(failed.status, NotificationDeliveryStatus::Failed);
    assert_eq!(failed.attempt_count, 1);
    assert!(failed.last_error.clone().unwrap_or_default().contains("network timeout"));
    assert!(failed.delivered_at.is_none());

    store.mark_delivered(delivery_id, NOW + 9);

    let delivered = store
        .deliveries()
        .iter()
        .find(|d| d.id == delivery_id)
        .expect("delivery present")
        .clone();
    assert_eq!(delivered.status, NotificationDeliveryStatus::Delivered);
    assert_eq!(delivered.attempt_count, 1);
    assert!(delivered.last_error.is_none());
    assert_eq!(delivered.delivered_at, Some(NOW + 9));
}

#[test]
fn test_dispatch_pending_once_marks_delivered_on_success() {
    let mut store = NotificationRepository::new();
    let delivery_id = seed_delivery(&mut store);

    let senders = vec![FakeSender { channel: NotificationChannel::Telegram, fail: false }];
    dispatch_pending_once(&mut store, &senders, 50, 5, NOW + 30);

    let row = store
        .deliveries()
        .iter()
        .find(|d| d.id == delivery_id)
        .expect("delivery present")
        .clone();
    assert_eq!(row.status, NotificationDeliveryStatus::Delivered);
    assert_eq!(row.delivered_at, Some(NOW + 30));
}

#[test]
fn test_dispatch_pending_once_marks_failed_when_sender_missing() {
    let mut store = NotificationRepository::new();
    let delivery_id = seed_delivery(&mut store);

    let senders: Vec<FakeSender> = Vec::new();
    dispatch_pending_once(&mut store, &senders, 50, 5, NOW + 30);

    let row = store
        .deliveries()
        .iter()
        .find(|d| d.id == delivery_id)
        .expect("delivery present")
        .clone();
    assert_eq!(row.status, NotificationDeliveryStatus::Failed);
    assert_eq!(row.attempt_count, 1);
    assert!(row.last_error.clone().unwrap_or_default().contains("No sender configured"));
}

#[test]
fn test_dispatch_failure_then_retry_until_exhausted() {
    let mut store = NotificationRepository::new();
    let delivery_id = seed_delivery(&mut store);

    let senders = vec![FakeSender { channel: NotificationChannel::Telegram, fail: true }];
    for tick in 0..7 {
        dispatch_pending_once(&mut store, &senders, 50, 3, NOW + 30 + tick);
    }

    let row = store
        .deliveries()
        .iter()
        .find(|d| d.id == delivery_id)
        .expect("delivery present")
        .clone();
    // Three failures exhaust the budget; later ticks no longer fetch it.
    assert_eq!(row.status, NotificationDeliveryStatus::Failed);
    assert_eq!(row.attempt_count, 3);
    assert!(row.last_error.clone().unwrap_or_default().contains("simulated send failure"));
    assert!(store.list_pending(50, 3).is_empty());
}

#[test]
fn test_delivered_delivery_is_never_fetched_again() {
    let mut store = NotificationRepository::new();
    let delivery_id = seed_delivery(&mut store);

    let senders = vec![FakeSender { channel: NotificationChannel::Telegram, fail: false }];
    dispatch_pending_once(&mut store, &senders, 50, 5, NOW + 30);
    assert!(store.list_pending(50, 5).is_empty());

    // A later generator pass over the same due occurrence adds nothing
    // and resurrects nothing.
    let event_id = store.upsert_due_event_with_deliveries(
        7,
        NOW,
        "Chore due".to_string(),
        "Test chore is due".to_string(),
        &vec![NotificationChannel::Telegram],
        NOW + 60,
    );
    assert_eq!(store.deliveries().len(), 1);
    assert!(store.list_pending(50, 5).is_empty());

    let row = store
        .deliveries()
        .iter()
        .find(|d| d.id == delivery_id)
        .expect("delivery present")
        .clone();
    assert_eq!(row.event_id, event_id);
    assert_eq!(row.status, NotificationDeliveryStatus::Delivered);
}

#[test]
fn test_list_pending_orders_by_due_then_creation() {
    let mut store = NotificationRepository::new();
    let channels = vec![NotificationChannel::Telegram];
    // Inserted out of due order; the fetch must sort by due instant.
    store.upsert_due_event_with_deliveries(1, NOW + 300, "late".to_string(), "l".to_string(), &channels, NOW);
    store.upsert_due_event_with_deliveries(2, NOW + 100, "early".to_string(), "e".to_string(), &channels, NOW + 1);
    store.upsert_due_event_with_deliveries(3, NOW + 200, "middle".to_string(), "m".to_string(), &channels, NOW + 2);

    let pending = store.list_pending(50, 5);
    let titles: Vec<String> = pending.iter().map(|p| p.title.clone()).collect();
    assert_eq!(titles, vec!["early".to_string(), "middle".to_string(), "late".to_string()]);

    // The batch size caps the fetch at the front of the order.
    let capped = store.list_pending(2, 5);
    assert_eq!(capped.len(), 2);
    assert_eq!(capped[0].title, "early");
    assert_eq!(capped[1].title, "middle");
}
