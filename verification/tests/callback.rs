use nag_core::models::NotificationChannel;
use nag_core::models::NotificationEventType;
use nag_core::models::PendingNotification;
use nag_core::telegram::CallbackAction;
use nag_core::telegram::callback_reply;
use nag_core::telegram::completion_reply;
use nag_core::telegram::done_callback_data;
use nag_core::telegram::message_text;
use nag_core::telegram::parse_chat_id;
use nag_core::telegram::parse_done_callback;

#[test]
fn test_parse_done_callback_without_data() {
    assert_eq!(parse_done_callback(&None), CallbackAction::NoAction);
}

#[test]
fn test_parse_done_callback_unsupported() {
    assert_eq!(
        parse_done_callback(&Some("snooze:123".to_string())),
        CallbackAction::UnsupportedAction
    );
    assert_eq!(parse_done_callback(&Some("don".to_string())), CallbackAction::UnsupportedAction);
    assert_eq!(parse_done_callback(&Some("".to_string())), CallbackAction::UnsupportedAction);
}

#[test]
fn test_parse_done_callback_invalid_id() {
    assert_eq!(
        parse_done_callback(&Some("done:not-a-uuid".to_string())),
        CallbackAction::InvalidChoreId
    );
    assert_eq!(parse_done_callback(&Some("done:".to_string())), CallbackAction::InvalidChoreId);
}

#[test]
fn test_parse_done_callback_valid_id() {
    let id = uuid::Uuid::parse_str("67e55044-10b1-426f-9247-bb680e5fe0c8").unwrap();
    let data = format!("done:{}", id);
    assert_eq!(
        parse_done_callback(&Some(data)),
        CallbackAction::MarkDone(id.as_u128())
    );
}

#[test]
fn test_done_callback_data_round_trip() {
    let id: u128 = 0x67e5504410b1426f9247bb680e5fe0c8;
    let data = done_callback_data(id);
    assert_eq!(data, format!("done:{}", uuid::Uuid::from_u128(id)));
    assert_eq!(parse_done_callback(&Some(data)), CallbackAction::MarkDone(id));
}

#[test]
fn test_message_text_joins_title_and_body() {
    let n = PendingNotification {
        delivery_id: 1,
        event_id: 2,
        channel: NotificationChannel::Telegram,
        attempt_count: 0,
        chore_id: 3,
        event_type: NotificationEventType::Due,
        due_at: 0,
        title: "Chore due: Vacuum".to_string(),
        body: "Vacuum is due".to_string(),
    };
    assert_eq!(message_text(&n), "Chore due: Vacuum\nVacuum is due");
}

#[test]
fn test_parse_chat_id_accepts_what_std_accepts() {
    for s in ["0", "12345", "-100123456789", "+42", "9223372036854775807", "-9223372036854775808"] {
        let expected: i64 = s.parse().unwrap();
        assert_eq!(parse_chat_id(s).unwrap(), expected);
    }
    for s in ["", "-", "+", "12a", "１２", " 5", "5 ", "9223372036854775808", "-9223372036854775809"] {
        assert!(s.parse::<i64>().is_err());
        let err = parse_chat_id(s).unwrap_err();
        assert_eq!(err, format!("Invalid TELEGRAM_CHAT_ID '{}': expected numeric chat id", s));
    }
}

#[test]
fn test_callback_replies() {
    assert_eq!(
        callback_reply(&CallbackAction::NoAction),
        Some("No action attached".to_string())
    );
    assert_eq!(
        callback_reply(&CallbackAction::UnsupportedAction),
        Some("Unsupported action".to_string())
    );
    assert_eq!(
        callback_reply(&CallbackAction::InvalidChoreId),
        Some("Invalid chore id".to_string())
    );
    assert_eq!(callback_reply(&CallbackAction::MarkDone(7)), None);

    assert_eq!(completion_reply(true), "Marked done");
    assert_eq!(completion_reply(false), "Failed to mark done");
}
