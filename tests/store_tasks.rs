use mini_todo::datetime::{LocalClock, LocalDateTime};
use mini_todo::model::{
    CreateSubTaskRequest, CreateTodoRequest, Todo, UpdateSubTaskRequest, UpdateTodoRequest,
};
use mini_todo::store::{StoreError, TodoStore};

fn at(year: i32, month: u8, day: u8, hour: u8, minute: u8, second: u8) -> LocalDateTime {
    LocalDateTime { year, month, day, hour, minute, second }
}

fn clock(at: LocalDateTime) -> LocalClock {
    LocalClock { at, offset_secs: 0 }
}

fn noon() -> LocalDateTime {
    at(2024, 5, 1, 12, 0, 0)
}

fn request(title: &str) -> CreateTodoRequest {
    CreateTodoRequest {
        title: title.to_string(),
        description: None,
        color: "#F59E0B".to_string(),
        quadrant: 4,
        notify_at: None,
        notify_before: None,
        start_time: None,
        end_time: None,
    }
}

fn empty_patch() -> UpdateTodoRequest {
    UpdateTodoRequest {
        title: None,
        description: None,
        color: None,
        quadrant: None,
        notify_at: None,
        notify_before: None,
        completed: None,
        sort_order: None,
        clear_notify_at: false,
        start_time: None,
        end_time: None,
        clear_start_time: false,
        clear_end_time: false,
    }
}

fn create(store: &mut TodoStore, title: &str) -> Todo {
    store.create_todo(request(title), &noon()).unwrap()
}

#[test]
fn create_on_empty_store_starts_at_zero() {
    let mut store = TodoStore::new();
    let t = create(&mut store, "first");
    assert_eq!(t.id, 1);
    assert_eq!(t.sort_order, 0);
    assert!(!t.notified);
    assert!(!t.completed);
    assert_eq!(t.notify_before, 0);
    assert_eq!(t.created_at, "2024-05-01 12:00:00");
    assert_eq!(t.updated_at, "2024-05-01 12:00:00");
    assert!(t.subtasks.is_empty());
}

#[test]
fn create_reads_back_one_past_open_maximum() {
    let mut store = TodoStore::new();
    let a = create(&mut store, "a");
    let b = create(&mut store, "b");
    assert_eq!(b.sort_order, 1);
    let mut done = empty_patch();
    done.completed = Some(true);
    done.sort_order = Some(50);
    store.update_todo(b.id, done, &noon()).unwrap();
    let c = create(&mut store, "c");
    assert_eq!(c.sort_order, a.sort_order + 1);
    let read = store.get_todo(c.id).unwrap();
    assert!(!read.notified);
    assert_eq!(read.sort_order, 1);
}

#[test]
fn create_with_only_completed_tasks_starts_at_zero() {
    let mut store = TodoStore::new();
    let a = create(&mut store, "a");
    let mut done = empty_patch();
    done.completed = Some(true);
    done.sort_order = Some(9);
    store.update_todo(a.id, done, &noon()).unwrap();
    let b = create(&mut store, "b");
    assert_eq!(b.sort_order, 0);
}

#[test]
fn create_after_negative_orders_follows_them() {
    let mut store = TodoStore::new();
    let a = create(&mut store, "a");
    let mut p = empty_patch();
    p.sort_order = Some(-5);
    store.update_todo(a.id, p, &noon()).unwrap();
    let b = create(&mut store, "b");
    assert_eq!(b.sort_order, -4);
}

#[test]
fn create_keeps_request_fields() {
    let mut store = TodoStore::new();
    let mut r = request("call");
    r.description = Some("dentist".to_string());
    r.quadrant = 1;
    r.notify_at = Some("2024-05-02 09:00".to_string());
    r.notify_before = Some(15);
    r.start_time = Some("2024-05-02".to_string());
    let t = store.create_todo(r, &noon()).unwrap();
    assert_eq!(t.description.as_deref(), Some("dentist"));
    assert_eq!(t.quadrant, 1);
    assert_eq!(t.notify_at.as_deref(), Some("2024-05-02 09:00"));
    assert_eq!(t.notify_before, 15);
    assert_eq!(t.start_time.as_deref(), Some("2024-05-02"));
    assert_eq!(t.end_time, None);
}

#[test]
fn empty_patch_fails_and_changes_nothing() {
    let mut store = TodoStore::new();
    let t = create(&mut store, "keep");
    let later = at(2024, 6, 1, 8, 0, 0);
    let r = store.update_todo(t.id, empty_patch(), &later);
    assert_eq!(r.unwrap_err(), StoreError::NoFieldsToUpdate);
    let read = store.get_todo(t.id).unwrap();
    assert_eq!(read.title, "keep");
    assert_eq!(read.updated_at, "2024-05-01 12:00:00");
    assert_eq!(read.sort_order, 0);
}

#[test]
fn update_of_unknown_task_is_not_found() {
    let mut store = TodoStore::new();
    let mut p = empty_patch();
    p.title = Some("x".to_string());
    assert_eq!(store.update_todo(42, p, &noon()).unwrap_err(), StoreError::NotFound);
}

#[test]
fn update_touches_only_given_fields() {
    let mut store = TodoStore::new();
    let mut r = request("old");
    r.description = Some("desc".to_string());
    let t = store.create_todo(r, &noon()).unwrap();
    let mut p = empty_patch();
    p.title = Some("new".to_string());
    p.quadrant = Some(2);
    let later = at(2024, 5, 1, 13, 30, 0);
    let u = store.update_todo(t.id, p, &later).unwrap();
    assert_eq!(u.title, "new");
    assert_eq!(u.quadrant, 2);
    assert_eq!(u.description.as_deref(), Some("desc"));
    assert_eq!(u.color, "#F59E0B");
    assert_eq!(u.created_at, "2024-05-01 12:00:00");
    assert_eq!(u.updated_at, "2024-05-01 13:30:00");
}

#[test]
fn setting_reminder_time_rearms_notified_task() {
    let mut store = TodoStore::new();
    let mut r = request("remind");
    r.notify_at = Some("2024-05-01 11:00".to_string());
    let t = store.create_todo(r, &noon()).unwrap();
    let fired = store.run_reminders(&clock(noon()));
    assert_eq!(fired.len(), 1);
    assert!(store.get_todo(t.id).unwrap().notified);
    let mut p = empty_patch();
    p.notify_at = Some("2024-05-03 08:00".to_string());
    let u = store.update_todo(t.id, p, &noon()).unwrap();
    assert!(!u.notified);
    assert_eq!(u.notify_at.as_deref(), Some("2024-05-03 08:00"));
}

#[test]
fn clearing_reminder_time_rearms_notified_task() {
    let mut store = TodoStore::new();
    let mut r = request("remind");
    r.notify_at = Some("2024-05-01 11:00".to_string());
    let t = store.create_todo(r, &noon()).unwrap();
    store.run_reminders(&clock(noon()));
    let mut p = empty_patch();
    p.clear_notify_at = true;
    p.notify_at = Some("2024-05-09 08:00".to_string());
    let u = store.update_todo(t.id, p, &noon()).unwrap();
    assert!(!u.notified);
    assert_eq!(u.notify_at, None);
}

#[test]
fn clear_flags_empty_start_and_end() {
    let mut store = TodoStore::new();
    let mut r = request("span");
    r.start_time = Some("2024-05-01".to_string());
    r.end_time = Some("2024-05-04".to_string());
    let t = store.create_todo(r, &noon()).unwrap();
    let mut p = empty_patch();
    p.clear_start_time = true;
    let u = store.update_todo(t.id, p, &noon()).unwrap();
    assert_eq!(u.start_time, None);
    assert_eq!(u.end_time.as_deref(), Some("2024-05-04"));
    let mut p = empty_patch();
    p.clear_end_time = true;
    let u = store.update_todo(t.id, p, &noon()).unwrap();
    assert_eq!(u.end_time, None);
}

#[test]
fn delete_removes_task_and_its_subtasks() {
    let mut store = TodoStore::new();
    let a = create(&mut store, "a");
    let b = create(&mut store, "b");
    let s1 = store
        .create_subtask(CreateSubTaskRequest { parent_id: a.id, title: "s1".to_string() }, &noon())
        .unwrap();
    store
        .create_subtask(CreateSubTaskRequest { parent_id: a.id, title: "s2".to_string() }, &noon())
        .unwrap();
    let kept = store
        .create_subtask(CreateSubTaskRequest { parent_id: b.id, title: "k".to_string() }, &noon())
        .unwrap();
    store.delete_todo(a.id);
    assert!(store.get_todo(a.id).is_none());
    let patch = UpdateSubTaskRequest { title: Some("x".to_string()), completed: None, sort_order: None };
    assert_eq!(store.update_subtask(s1.id, patch, &noon()).unwrap_err(), StoreError::NotFound);
    let list = store.get_todos();
    assert_eq!(list.len(), 1);
    assert_eq!(list[0].subtasks.len(), 1);
    assert_eq!(list[0].subtasks[0].id, kept.id);
    let exported = store.export_data(&noon(), 0);
    let total: usize = exported.todos.iter().map(|t| t.subtasks.len()).sum();
    assert_eq!(total, 1);
}

#[test]
fn delete_of_unknown_task_changes_nothing() {
    let mut store = TodoStore::new();
    create(&mut store, "a");
    store.delete_todo(99);
    assert_eq!(store.get_todos().len(), 1);
}

#[test]
fn reorder_assigns_positions_and_leaves_others() {
    let mut store = TodoStore::new();
    for name in ["one", "two", "three", "four"] {
        create(&mut store, name);
    }
    store.reorder_todos(&vec![3, 1, 2], &noon());
    assert_eq!(store.get_todo(3).unwrap().sort_order, 0);
    assert_eq!(store.get_todo(1).unwrap().sort_order, 1);
    assert_eq!(store.get_todo(2).unwrap().sort_order, 2);
    assert_eq!(store.get_todo(4).unwrap().sort_order, 3);
    let order: Vec<i64> = store.get_todos().iter().map(|t| t.id).collect();
    assert_eq!(order, vec![3, 1, 2, 4]);
}

#[test]
fn reorder_ignores_unknown_ids_and_takes_last_mention() {
    let mut store = TodoStore::new();
    create(&mut store, "one");
    create(&mut store, "two");
    store.reorder_todos(&vec![77, 2, 1, 2], &noon());
    assert_eq!(store.get_todo(1).unwrap().sort_order, 2);
    assert_eq!(store.get_todo(2).unwrap().sort_order, 3);
}

#[test]
fn list_puts_open_first_then_order_then_newest() {
    let mut store = TodoStore::new();
    let a = store.create_todo(request("a"), &at(2024, 5, 1, 9, 0, 0)).unwrap();
    let b = store.create_todo(request("b"), &at(2024, 5, 1, 10, 0, 0)).unwrap();
    let c = store.create_todo(request("c"), &at(2024, 5, 1, 11, 0, 0)).unwrap();
    let mut done = empty_patch();
    done.completed = Some(true);
    done.sort_order = Some(0);
    store.update_todo(a.id, done, &noon()).unwrap();
    let mut same = empty_patch();
    same.sort_order = Some(7);
    store.update_todo(b.id, same.clone(), &noon()).unwrap();
    store.update_todo(c.id, same, &noon()).unwrap();
    let order: Vec<i64> = store.get_todos().iter().map(|t| t.id).collect();
    assert_eq!(order, vec![c.id, b.id, a.id]);
}

#[test]
fn subtasks_take_next_order_and_list_by_order() {
    let mut store = TodoStore::new();
    let t = create(&mut store, "parent");
    let s0 = store
        .create_subtask(CreateSubTaskRequest { parent_id: t.id, title: "s0".to_string() }, &noon())
        .unwrap();
    let s1 = store
        .create_subtask(CreateSubTaskRequest { parent_id: t.id, title: "s1".to_string() }, &noon())
        .unwrap();
    assert_eq!(s0.sort_order, 0);
    assert_eq!(s1.sort_order, 1);
    assert_eq!(s1.parent_id, t.id);
    assert!(!s1.completed);
    let p = UpdateSubTaskRequest { title: None, completed: Some(true), sort_order: Some(-1) };
    let u = store.update_subtask(s1.id, p, &noon()).unwrap();
    assert!(u.completed);
    let read = store.get_todo(t.id).unwrap();
    let ids: Vec<i64> = read.subtasks.iter().map(|s| s.id).collect();
    assert_eq!(ids, vec![s1.id, s0.id]);
    let s2 = store
        .create_subtask(CreateSubTaskRequest { parent_id: t.id, title: "s2".to_string() }, &noon())
        .unwrap();
    assert_eq!(s2.sort_order, 1);
}

#[test]
fn subtask_for_unknown_task_is_not_found() {
    let mut store = TodoStore::new();
    let r = store.create_subtask(CreateSubTaskRequest { parent_id: 5, title: "x".to_string() }, &noon());
    assert_eq!(r.unwrap_err(), StoreError::NotFound);
}

#[test]
fn empty_subtask_patch_fails() {
    let mut store = TodoStore::new();
    let t = create(&mut store, "parent");
    let s = store
        .create_subtask(CreateSubTaskRequest { parent_id: t.id, title: "s".to_string() }, &noon())
        .unwrap();
    let p = UpdateSubTaskRequest { title: None, completed: None, sort_order: None };
    assert_eq!(store.update_subtask(s.id, p, &noon()).unwrap_err(), StoreError::NoFieldsToUpdate);
}

#[test]
fn delete_subtask_removes_only_it() {
    let mut store = TodoStore::new();
    let t = create(&mut store, "parent");
    let a = store
        .create_subtask(CreateSubTaskRequest { parent_id: t.id, title: "a".to_string() }, &noon())
        .unwrap();
    let b = store
        .create_subtask(CreateSubTaskRequest { parent_id: t.id, title: "b".to_string() }, &noon())
        .unwrap();
    store.delete_subtask(a.id);
    let read = store.get_todo(t.id).unwrap();
    assert_eq!(read.subtasks.len(), 1);
    assert_eq!(read.subtasks[0].id, b.id);
}

#[test]
fn error_messages_name_the_condition() {
    assert_eq!(StoreError::NoFieldsToUpdate.message(), "No fields to update");
    assert_eq!(StoreError::NotFound.message(), "Record not found");
}
