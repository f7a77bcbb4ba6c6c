use mini_todo::datetime::{day_number_of, epoch_seconds_of, iso_offset_of, parse_local_datetime, parse_timestamp, stamp_of, timestamp_due_exec, LocalClock, LocalDateTime};
use mini_todo::holiday::get_cache_path;
use mini_todo::migrate::{color_for_priority, legacy_layout, legacy_screen_config, pending_migrations};
use mini_todo::model::{default_quadrant, default_text_theme};
use mini_todo::notify::{notification_url, notification_url_from_encoded, screen_size_or_fallback, window_label, NotificationService};
use mini_todo::text::{push_padded, push_signed, text_equal, text_less_eq};
use mini_todo::window::{fixed_mode_style, is_notification_label, TrayAction, TrayClicks, WS_EX_APPWINDOW, WS_EX_TOOLWINDOW};

fn at(year: i32, month: u8, day: u8, hour: u8, minute: u8, second: u8) -> LocalDateTime {
    LocalDateTime { year, month, day, hour, minute, second }
}

#[test]
fn parses_the_accepted_shapes() {
    assert_eq!(parse_local_datetime("2024-05-01"), Some(at(2024, 5, 1, 0, 0, 0)));
    assert_eq!(parse_local_datetime("2024-05-01T09:30"), Some(at(2024, 5, 1, 9, 30, 0)));
    assert_eq!(parse_local_datetime("2024-05-01 09:30:15"), Some(at(2024, 5, 1, 9, 30, 15)));
}

#[test]
fn rejects_other_text() {
    assert_eq!(parse_local_datetime(""), None);
    assert_eq!(parse_local_datetime("2024-13-01"), None);
    assert_eq!(parse_local_datetime("2024-05-00"), None);
    assert_eq!(parse_local_datetime("2024-05-01 24:00"), None);
    assert_eq!(parse_local_datetime("2024-05-01X09:30"), None);
    assert_eq!(parse_local_datetime("2024/05/01"), None);
    assert_eq!(parse_local_datetime("2024-05-01 09:3a"), None);
}

#[test]
fn consecutive_days_are_one_apart() {
    assert_eq!(day_number_of(2024, 3, 1) - day_number_of(2024, 2, 29), 1);
    assert_eq!(day_number_of(2023, 3, 1) - day_number_of(2023, 2, 28), 1);
    assert_eq!(day_number_of(2024, 1, 1) - day_number_of(2023, 12, 31), 1);
    assert_eq!(day_number_of(2024, 1, 1) - day_number_of(2023, 1, 1), 365);
    assert_eq!(day_number_of(2025, 1, 1) - day_number_of(2024, 1, 1), 366);
    assert_eq!(day_number_of(2100, 3, 1) - day_number_of(2100, 2, 28), 1);
}

#[test]
fn seconds_count_within_a_day() {
    let a = epoch_seconds_of(&at(2024, 5, 1, 0, 0, 0));
    let b = epoch_seconds_of(&at(2024, 5, 1, 1, 2, 3));
    assert_eq!(b - a, 3723);
}

#[test]
fn due_compares_with_lead_time() {
    let now = LocalClock { at: at(2024, 5, 1, 10, 0, 0), offset_secs: 3600 };
    assert!(timestamp_due_exec(&at(2024, 5, 1, 9, 59, 0), None, 0, &now));
    assert!(timestamp_due_exec(&at(2024, 5, 1, 10, 0, 0), None, 0, &now));
    assert!(!timestamp_due_exec(&at(2024, 5, 1, 10, 0, 1), None, 0, &now));
    assert!(timestamp_due_exec(&at(2024, 5, 1, 10, 10, 0), None, 10, &now));
    assert!(!timestamp_due_exec(&at(2024, 5, 1, 10, 10, 0), None, 9, &now));
    assert!(timestamp_due_exec(&at(2024, 5, 1, 9, 0, 0), Some(0), 0, &now));
    assert!(!timestamp_due_exec(&at(2024, 5, 1, 9, 0, 1), Some(0), 0, &now));
}

#[test]
fn reads_fractions_and_zones() {
    assert_eq!(parse_timestamp("2024-05-01 09:30"), Some((at(2024, 5, 1, 9, 30, 0), None)));
    assert_eq!(parse_timestamp("2024-05-01T01:30:00.000Z"), Some((at(2024, 5, 1, 1, 30, 0), Some(0))));
    assert_eq!(parse_timestamp("2024-05-01T09:30:15.5"), Some((at(2024, 5, 1, 9, 30, 15), None)));
    assert_eq!(parse_timestamp("2024-05-01T09:30+08:00"), Some((at(2024, 5, 1, 9, 30, 0), Some(480))));
    assert_eq!(parse_timestamp("2024-05-01T09:30:00-05:30"), Some((at(2024, 5, 1, 9, 30, 0), Some(-330))));
    assert_eq!(parse_timestamp("2024-05-01T09:30:00+15:00"), None);
    assert_eq!(parse_timestamp("2024-05-01T09:30:00."), None);
    assert_eq!(parse_timestamp("2024-05-01T09:30.5"), None);
    assert_eq!(parse_timestamp("soon"), None);
}

#[test]
fn formats_timestamps() {
    assert_eq!(stamp_of(&at(2024, 5, 1, 9, 5, 7)), "2024-05-01 09:05:07");
    assert_eq!(stamp_of(&at(987, 12, 31, 23, 59, 59)), "0987-12-31 23:59:59");
    assert_eq!(stamp_of(&at(-44, 3, 15, 0, 0, 0)), "-0044-03-15 00:00:00");
    assert_eq!(iso_offset_of(&at(2024, 5, 1, 9, 5, 7), 3600 * 9 + 1800), "2024-05-01T09:05:07+09:30");
    assert_eq!(iso_offset_of(&at(2024, 5, 1, 9, 5, 7), 0), "2024-05-01T09:05:07+00:00");
}

#[test]
fn decimal_helpers() {
    let mut s = String::new();
    push_padded(&mut s, 7, 3);
    push_padded(&mut s, 12345, 2);
    push_signed(&mut s, -42);
    push_signed(&mut s, i64::MIN);
    assert_eq!(s, "00712345-42-9223372036854775808");
    assert!(text_equal("abc", "abc"));
    assert!(!text_equal("abc", "abd"));
    assert!(text_less_eq("2024-05-01", "2024-05-02"));
    assert!(text_less_eq("ab", "abc"));
    assert!(!text_less_eq("b", "abc"));
}

#[test]
fn defaults() {
    assert_eq!(default_quadrant(), 4);
    assert_eq!(default_text_theme(), "dark");
}

#[test]
fn notification_windows_stack_upwards() {
    let mut service = NotificationService::new();
    let first = service.open_window("t", "b", 1920, 1080);
    assert_eq!(first.label, "notification_0");
    assert_eq!((first.x, first.y), (1580, 940));
    assert_eq!((first.width, first.height), (320, 120));
    assert_eq!(service.open_windows, 0);
    service.window_opened();
    let second = service.open_window("t", "b", 1920, 1080);
    assert_eq!(second.label, "notification_1");
    assert_eq!(second.y, 810);
    service.window_opened();
    service.window_closed();
    let third = service.open_window("t", "b", 1920, 1080);
    assert_eq!(third.label, "notification_2");
    assert_eq!(third.y, 810);
    service.window_closed();
    service.window_closed();
    assert_eq!(service.open_windows, 0);
}

#[test]
fn failed_window_build_is_not_counted() {
    let mut service = NotificationService::new();
    let planned = service.open_window("t", "b", 1920, 1080);
    assert_eq!(planned.y, 940);
    let retry = service.open_window("t", "b", 1920, 1080);
    assert_eq!(retry.y, 940);
    assert_eq!(retry.label, "notification_1");
    assert_eq!(service.open_windows, 0);
}

#[test]
fn notification_url_encodes_each_part() {
    assert_eq!(
        notification_url("Buy milk & eggs", "at 5", "notification_3"),
        "index.html#/notification?title=Buy%20milk%20%26%20eggs&description=at%205&label=notification_3"
    );
    assert_eq!(
        notification_url("提醒", "x", "l"),
        "index.html#/notification?title=%E6%8F%90%E9%86%92&description=x&label=l"
    );
    assert_eq!(
        notification_url_from_encoded("a", "b", "c"),
        "index.html#/notification?title=a&description=b&label=c"
    );
    assert_eq!(window_label(42), "notification_42");
}

#[test]
fn screen_size_falls_back() {
    assert_eq!(screen_size_or_fallback(None), (1920, 1080));
    assert_eq!(screen_size_or_fallback(Some((2560, 1440))), (2560, 1440));
}

#[test]
fn pending_migration_steps() {
    assert_eq!(pending_migrations(0), vec![1, 2, 3, 4, 5]);
    assert_eq!(pending_migrations(-3), vec![1, 2, 3, 4, 5]);
    assert_eq!(pending_migrations(3), vec![4, 5]);
    assert_eq!(pending_migrations(5), Vec::<i64>::new());
    assert_eq!(pending_migrations(9), Vec::<i64>::new());
}

#[test]
fn legacy_priorities_become_colors() {
    assert_eq!(color_for_priority("high"), "#EF4444");
    assert_eq!(color_for_priority("medium"), "#F59E0B");
    assert_eq!(color_for_priority("low"), "#10B981");
    assert_eq!(color_for_priority("other"), "#F59E0B");
}

#[test]
fn legacy_window_becomes_screen_config() {
    let c = legacy_screen_config(Some(5), None, Some(4_294_967_396), None, true);
    assert_eq!(c.config_id, "legacy");
    assert_eq!(c.display_name.as_deref(), Some("旧版配置"));
    assert_eq!(c.window_x, 5);
    assert_eq!(c.window_y, 100);
    assert_eq!(c.window_width, 100);
    assert_eq!(c.window_height, 600);
    assert!(c.is_fixed);
}

#[test]
fn holiday_cache_path() {
    assert_eq!(get_cache_path("/home/u/.local/share", 2025), "/home/u/.local/share/mini-todo/holidays/2025.json");
}

#[test]
fn fixed_mode_switches_window_style_bits() {
    let base: u32 = 0x0000_0100 | WS_EX_APPWINDOW;
    let fixed = fixed_mode_style(base, true);
    assert_eq!(fixed, 0x0000_0100 | WS_EX_TOOLWINDOW);
    let back = fixed_mode_style(fixed, false);
    assert_eq!(back, base);
}

#[test]
fn tray_double_click_adds_a_task() {
    let mut clicks = TrayClicks::new();
    assert_eq!(clicks.click(10_000), TrayAction::ShowMainWindow);
    assert_eq!(clicks.click(10_300), TrayAction::AddTodo);
    assert_eq!(clicks.last_click_ms, 0);
    assert_eq!(clicks.click(10_400), TrayAction::ShowMainWindow);
    assert_eq!(clicks.click(10_900), TrayAction::ShowMainWindow);
    assert_eq!(clicks.click(5_000), TrayAction::ShowMainWindow);
}

#[test]
fn notification_labels_are_recognised() {
    assert!(is_notification_label("notification_0"));
    assert!(is_notification_label("notification_"));
    assert!(!is_notification_label("main"));
    assert!(!is_notification_label("notificatio"));
}

#[test]
fn legacy_layout_needs_position_and_size() {
    assert!(legacy_layout(Some((Some(1), Some(2))), None, Some("true")).is_none());
    assert!(legacy_layout(None, Some((Some(3), Some(4))), None).is_none());
    let c = legacy_layout(Some((Some(1), None)), Some((None, Some(700))), Some("true")).unwrap();
    assert_eq!((c.window_x, c.window_y, c.window_width, c.window_height), (1, 100, 380, 700));
    assert!(c.is_fixed);
    let d = legacy_layout(Some((None, None)), Some((None, None)), Some("yes")).unwrap();
    assert!(!d.is_fixed);
    assert_eq!(d.config_id, "legacy");
}
