use nag_core::config::Config;
use nag_core::notify::NotificationRuntimeConfig;
use nag_core::requests::ScheduleInput;
use nag_core::requests::schedule_params_from_input;
use nag_core::models::ScheduleType;
use nag_core::tags::is_valid_tag_color;
use nag_core::tags::validate_tag_name;

fn base_config() -> Config {
    Config {
        database_url: "sqlite::memory:".to_string(),
        server_port: 3000,
        json_logs: false,
        auth_enabled: false,
        oidc_issuer_url: None,
        oidc_client_id: None,
        oidc_client_secret: None,
        oidc_redirect_url: None,
        notifications_enabled: false,
        notification_poll_interval_seconds: 60,
        notification_dispatch_interval_seconds: 15,
        notification_max_attempts: 5,
        notification_batch_size: 50,
        telegram_bot_token: None,
        telegram_chat_id: None,
    }
}

#[test]
fn test_validate_notifications_disabled_is_ok() {
    assert!(base_config().validate_notifications().is_ok());
}

#[test]
fn test_validate_notifications_lists_missing_variables() {
    let mut c = base_config();
    c.notifications_enabled = true;
    let err = c.validate_notifications().unwrap_err();
    assert_eq!(
        err,
        "NOTIFICATIONS_ENABLED=true but the following required environment variables are not set: TELEGRAM_BOT_TOKEN, TELEGRAM_CHAT_ID"
    );

    c.telegram_bot_token = Some("bot-token".to_string());
    let err = c.validate_notifications().unwrap_err();
    assert!(err.ends_with("TELEGRAM_CHAT_ID"));
    assert!(!err.contains("TELEGRAM_BOT_TOKEN"));

    c.telegram_chat_id = Some("12345".to_string());
    assert!(c.validate_notifications().is_ok());
}

#[test]
fn test_validate_oidc_lists_missing_variables() {
    let mut c = base_config();
    assert!(c.validate_oidc().is_ok());

    c.auth_enabled = true;
    let err = c.validate_oidc().unwrap_err();
    assert_eq!(
        err,
        "AUTH_ENABLED=true but the following required environment variables are not set: OIDC_ISSUER_URL, OIDC_CLIENT_ID, OIDC_CLIENT_SECRET, OIDC_REDIRECT_URL"
    );

    c.oidc_issuer_url = Some("https://issuer.example".to_string());
    c.oidc_client_secret = Some("client-secret".to_string());
    let err = c.validate_oidc().unwrap_err();
    assert_eq!(
        err,
        "AUTH_ENABLED=true but the following required environment variables are not set: OIDC_CLIENT_ID, OIDC_REDIRECT_URL"
    );

    c.oidc_client_id = Some("client".to_string());
    c.oidc_redirect_url = Some("https://app.example/auth/callback".to_string());
    assert!(c.validate_oidc().is_ok());
}

#[test]
fn test_runtime_config_defaults() {
    let c = NotificationRuntimeConfig::default();
    assert_eq!(c.poll_interval_seconds, 60);
    assert_eq!(c.dispatch_interval_seconds, 15);
    assert_eq!(c.max_attempts, 5);
    assert_eq!(c.batch_size, 50);
}

#[test]
fn test_tag_color_palette() {
    for color in [
        "terracotta", "sage", "ocean", "amber", "plum", "clay", "moss", "slate", "mauve", "sand",
    ] {
        assert!(is_valid_tag_color(color));
    }
    assert!(!is_valid_tag_color("red"));
    assert!(!is_valid_tag_color(""));
    assert!(!is_valid_tag_color("Sage"));
}

#[test]
fn test_tag_name_rules() {
    assert!(validate_tag_name("kitchen").is_ok());
    let err = validate_tag_name("").unwrap_err();
    assert_eq!(err, "Tag name cannot be empty");
    let long = "x".repeat(51);
    let err = validate_tag_name(&long).unwrap_err();
    assert_eq!(err, "Tag name cannot exceed 50 characters");
    assert!(validate_tag_name(&"x".repeat(50)).is_ok());
}

#[test]
fn test_schedule_params_from_input() {
    let now = 1_700_000_000;

    let p = schedule_params_from_input(
        ScheduleInput::Interval {
            interval_days: 14,
            interval_time_hour: Some(8),
            interval_time_minute: None,
        },
        now,
    )
    .unwrap();
    assert_eq!(p.schedule_type, ScheduleType::Interval);
    assert_eq!(p.interval_days, Some(14));
    assert_eq!(p.interval_time_hour, Some(8));
    assert_eq!(p.cron_schedule, None);

    let err = schedule_params_from_input(
        ScheduleInput::Interval {
            interval_days: 0,
            interval_time_hour: None,
            interval_time_minute: None,
        },
        now,
    )
    .unwrap_err();
    assert_eq!(err, "Invalid interval schedule: Interval must be at least 1 day(s)");

    let p = schedule_params_from_input(
        ScheduleInput::Cron { cron_schedule: "0 9 * * 1".to_string() },
        now,
    )
    .unwrap();
    assert_eq!(p.schedule_type, ScheduleType::Cron);
    assert_eq!(p.cron_schedule, Some("0 9 * * 1".to_string()));

    let err = schedule_params_from_input(
        ScheduleInput::Cron { cron_schedule: "* * * * *".to_string() },
        now,
    )
    .unwrap_err();
    assert_eq!(
        err,
        "Invalid cron schedule: Schedule is too frequent. Minimum interval is 1 hour."
    );

    let p = schedule_params_from_input(ScheduleInput::OnceInAWhile, now).unwrap();
    assert_eq!(p.schedule_type, ScheduleType::OnceInAWhile);
    assert_eq!(p.cron_schedule, None);
    assert_eq!(p.interval_days, None);
}
