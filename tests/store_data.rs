use mini_todo::datetime::{LocalClock, LocalDateTime};
use mini_todo::model::{
    AppSettings, CreateSubTaskRequest, CreateTodoRequest, SaveScreenConfigRequest, UpdateTodoRequest,
    WindowPosition, WindowSize,
};
use mini_todo::store::reminders::Channel;
use mini_todo::store::settings::coerce_notification_type;
use mini_todo::store::{StoreError, TodoStore};

fn at(year: i32, month: u8, day: u8, hour: u8, minute: u8, second: u8) -> LocalDateTime {
    LocalDateTime { year, month, day, hour, minute, second }
}

fn clock(at: LocalDateTime) -> LocalClock {
    LocalClock { at, offset_secs: 0 }
}

fn request(title: &str, notify_at: Option<&str>, notify_before: Option<i32>) -> CreateTodoRequest {
    CreateTodoRequest {
        title: title.to_string(),
        description: None,
        color: "#EF4444".to_string(),
        quadrant: 2,
        notify_at: notify_at.map(|s| s.to_string()),
        notify_before,
        start_time: None,
        end_time: None,
    }
}

#[test]
fn reminder_one_minute_past_fires_once() {
    let now = at(2024, 5, 1, 10, 0, 0);
    let mut store = TodoStore::new();
    let t = store.create_todo(request("due", Some("2024-05-01 09:59"), Some(0)), &now).unwrap();
    let pending = store.pending_notifications(&clock(now));
    assert_eq!(pending.len(), 1);
    assert_eq!(pending[0].id, t.id);
    assert_eq!(pending[0].title, "due");
    let shown = store.run_reminders(&clock(now));
    assert_eq!(shown.len(), 1);
    assert_eq!(shown[0].todo_id, t.id);
    assert_eq!(shown[0].channel, Channel::System);
    assert_eq!(shown[0].body, "待办事项提醒");
    assert!(store.get_todo(t.id).unwrap().notified);
    assert!(store.pending_notifications(&clock(now)).is_empty());
    assert!(store.pending_notifications(&clock(at(2024, 5, 2, 10, 0, 0))).is_empty());
    assert!(store.run_reminders(&clock(now)).is_empty());
}

#[test]
fn reminder_lead_time_moves_it_earlier() {
    let now = at(2024, 5, 1, 10, 0, 0);
    let mut store = TodoStore::new();
    store.create_todo(request("early", Some("2024-05-01T10:30"), Some(30)), &now).unwrap();
    store.create_todo(request("later", Some("2024-05-01T10:30:00"), Some(29)), &now).unwrap();
    let pending = store.pending_notifications(&clock(now));
    assert_eq!(pending.len(), 1);
    assert_eq!(pending[0].title, "early");
}

#[test]
fn reminder_across_midnight_and_month_end() {
    let now = at(2024, 3, 1, 0, 5, 0);
    let mut store = TodoStore::new();
    store.create_todo(request("leap", Some("2024-02-29 23:59:00"), Some(0)), &now).unwrap();
    store.create_todo(request("future", Some("2024-03-01 00:06"), Some(0)), &now).unwrap();
    let pending = store.pending_notifications(&clock(now));
    assert_eq!(pending.len(), 1);
    assert_eq!(pending[0].title, "leap");
}

#[test]
fn completed_or_unreadable_reminders_never_fire() {
    let now = at(2024, 5, 1, 10, 0, 0);
    let mut store = TodoStore::new();
    let done = store.create_todo(request("done", Some("2024-05-01 09:00"), None), &now).unwrap();
    let mut p = UpdateTodoRequest {
        title: None,
        description: None,
        color: None,
        quadrant: None,
        notify_at: None,
        notify_before: None,
        completed: Some(true),
        sort_order: None,
        clear_notify_at: false,
        start_time: None,
        end_time: None,
        clear_start_time: false,
        clear_end_time: false,
    };
    store.update_todo(done.id, p.clone(), &now).unwrap();
    store.create_todo(request("garbled", Some("yesterday"), None), &now).unwrap();
    store.create_todo(request("none", None, None), &now).unwrap();
    assert!(store.pending_notifications(&clock(now)).is_empty());
    p.completed = Some(false);
    store.update_todo(done.id, p, &now).unwrap();
    assert_eq!(store.pending_notifications(&clock(now)).len(), 1);
}

#[test]
fn app_notification_type_selects_in_app_channel() {
    let now = at(2024, 5, 1, 10, 0, 0);
    let mut store = TodoStore::new();
    let mut r = request("win", Some("2024-05-01 09:00"), None);
    r.description = Some("details".to_string());
    store.create_todo(r, &now).unwrap();
    store.set_notification_type("app");
    let shown = store.run_reminders(&clock(now));
    assert_eq!(shown.len(), 1);
    assert_eq!(shown[0].channel, Channel::InApp);
    assert_eq!(shown[0].body, "details");
}

#[test]
fn bogus_notification_type_becomes_system() {
    let mut store = TodoStore::new();
    assert_eq!(store.get_notification_type(), "system");
    store.set_notification_type("app");
    assert_eq!(store.get_notification_type(), "app");
    store.set_notification_type("bogus");
    assert_eq!(store.get_notification_type(), "system");
    assert_eq!(coerce_notification_type("bogus"), "system");
    assert_eq!(coerce_notification_type("app"), "app");
    assert_eq!(coerce_notification_type(""), "system");
}

#[test]
fn settings_have_defaults_and_round_trip() {
    let mut store = TodoStore::new();
    let s = store.get_settings();
    assert!(!s.is_fixed);
    assert!(s.window_position.is_none());
    assert!(s.window_size.is_none());
    assert_eq!(s.text_theme, "dark");
    store.save_settings(&AppSettings {
        is_fixed: true,
        window_position: Some(WindowPosition { x: -10, y: 40 }),
        window_size: Some(WindowSize { width: 380, height: 600 }),
        text_theme: "light".to_string(),
    });
    let s = store.get_settings();
    assert!(s.is_fixed);
    assert_eq!(s.window_position, Some(WindowPosition { x: -10, y: 40 }));
    assert_eq!(s.window_size, Some(WindowSize { width: 380, height: 600 }));
    assert_eq!(s.text_theme, "light");
    assert_eq!(store.get_setting("is_fixed").as_deref(), Some("true"));
    store.save_settings(&AppSettings {
        is_fixed: false,
        window_position: None,
        window_size: None,
        text_theme: "dark".to_string(),
    });
    let s = store.get_settings();
    assert!(!s.is_fixed);
    assert_eq!(s.window_position, Some(WindowPosition { x: -10, y: 40 }));
    assert_eq!(store.get_setting("is_fixed").as_deref(), Some("false"));
}

#[test]
fn generic_setting_upserts_by_key() {
    let mut store = TodoStore::new();
    assert_eq!(store.get_setting("view_mode"), None);
    store.set_setting("view_mode", "list");
    store.set_setting("show_calendar", "false");
    store.set_setting("view_mode", "quadrant");
    assert_eq!(store.get_setting("view_mode").as_deref(), Some("quadrant"));
    assert_eq!(store.get_setting("show_calendar").as_deref(), Some("false"));
}

#[test]
fn export_then_import_keeps_tasks_and_subtasks() {
    let now = at(2024, 5, 1, 10, 0, 0);
    let mut source = TodoStore::new();
    let a = source.create_todo(request("a", Some("2024-05-02 08:00"), Some(5)), &now).unwrap();
    let b = source.create_todo(request("b", None, None), &at(2024, 5, 1, 11, 0, 0)).unwrap();
    for title in ["a1", "a2", "a3"] {
        source
            .create_subtask(CreateSubTaskRequest { parent_id: a.id, title: title.to_string() }, &now)
            .unwrap();
    }
    source.create_subtask(CreateSubTaskRequest { parent_id: b.id, title: "b1".to_string() }, &now).unwrap();
    source.set_setting("text_theme", "light");
    let snapshot = source.export_data(&now, 8 * 3600);
    assert_eq!(snapshot.version, "1.0");
    assert_eq!(snapshot.exported_at, "2024-05-01T10:00:00+08:00");
    assert_eq!(snapshot.todos.len(), 2);
    assert_eq!(snapshot.settings.text_theme, "light");

    let mut target = TodoStore::new();
    let old = target.create_todo(request("old", None, None), &now).unwrap();
    target.create_subtask(CreateSubTaskRequest { parent_id: old.id, title: "gone".to_string() }, &now).unwrap();
    target.import_data(&snapshot).unwrap();
    assert!(target.get_todo(old.id).is_none());
    let after = target.export_data(&now, 0);
    assert_eq!(after.todos.len(), snapshot.todos.len());
    for (x, y) in after.todos.iter().zip(snapshot.todos.iter()) {
        assert_ne!(x.id, y.id);
        assert_eq!(x.title, y.title);
        assert_eq!(x.notify_at, y.notify_at);
        assert_eq!(x.notify_before, y.notify_before);
        assert_eq!(x.notified, y.notified);
        assert_eq!(x.completed, y.completed);
        assert_eq!(x.sort_order, y.sort_order);
        assert_eq!(x.created_at, y.created_at);
        assert_eq!(x.updated_at, y.updated_at);
        assert_eq!(x.subtasks.len(), y.subtasks.len());
        for (p, q) in x.subtasks.iter().zip(y.subtasks.iter()) {
            assert_eq!(p.parent_id, x.id);
            assert_eq!(p.title, q.title);
            assert_eq!(p.completed, q.completed);
            assert_eq!(p.sort_order, q.sort_order);
            assert_eq!(p.created_at, q.created_at);
        }
    }
    assert_eq!(target.get_settings().text_theme, "light");
}

#[test]
fn export_time_carries_negative_offset() {
    let store = TodoStore::new();
    let snapshot = store.export_data(&at(2023, 12, 31, 23, 5, 9), -(5 * 3600 + 30 * 60));
    assert_eq!(snapshot.exported_at, "2023-12-31T23:05:09-05:30");
    assert!(snapshot.todos.is_empty());
}

#[test]
fn screen_configs_upsert_rename_and_delete() {
    let now = at(2024, 5, 1, 10, 0, 0);
    let later = at(2024, 5, 2, 10, 0, 0);
    let mut store = TodoStore::new();
    let req = |id: &str, x: i32| SaveScreenConfigRequest {
        config_id: id.to_string(),
        display_name: None,
        window_x: x,
        window_y: 20,
        window_width: 380,
        window_height: 600,
        is_fixed: false,
    };
    let first = store.save_screen_config(req("1_1920x1080@100", 10), &now).unwrap();
    let other = store.save_screen_config(req("2_2560x1440@125_1920x1080@100", 30), &now).unwrap();
    assert_ne!(first.id, other.id);
    let again = store.save_screen_config(req("1_1920x1080@100", 99), &later).unwrap();
    assert_eq!(again.id, first.id);
    assert_eq!(again.window_x, 99);
    assert_eq!(again.created_at, "2024-05-01 10:00:00");
    assert_eq!(again.updated_at, "2024-05-02 10:00:00");
    assert_eq!(store.list_screen_configs().len(), 2);
    store.update_screen_config_name("1_1920x1080@100", Some("desk".to_string()), &later).unwrap();
    let got = store.get_screen_config("1_1920x1080@100").unwrap();
    assert_eq!(got.display_name.as_deref(), Some("desk"));
    assert_eq!(
        store.update_screen_config_name("nope", None, &later).unwrap_err(),
        StoreError::NotFound
    );
    store.delete_screen_config("1_1920x1080@100");
    assert!(store.get_screen_config("1_1920x1080@100").is_none());
    assert_eq!(store.list_screen_configs().len(), 1);
}

#[test]
fn reminder_with_zone_fires_at_that_instant() {
    let mut store = TodoStore::new();
    let created = at(2024, 5, 1, 8, 0, 0);
    store.create_todo(request("utc", Some("2024-05-01T01:59:00.000Z"), None), &created).unwrap();
    store.create_todo(request("later", Some("2024-05-01T02:30:00Z"), None), &created).unwrap();
    let now = LocalClock { at: at(2024, 5, 1, 10, 0, 0), offset_secs: 8 * 3600 };
    let pending = store.pending_notifications(&now);
    assert_eq!(pending.len(), 1);
    assert_eq!(pending[0].title, "utc");
}
