//! The records the store keeps and hands out, and the requests that create
//! and change them.
use vstd::prelude::*;

verus! {

/// The characters of an optional text.
pub open spec fn opt_text(o: Option<String>) -> Option<Seq<char>> {
    match o {
        Some(s) => Some(s@),
        None => None,
    }
}

/// A copy of an optional text.
pub fn copy_opt_text(o: &Option<String>) -> (r: Option<String>)
    ensures
        r == *o,
{
    match o {
        Some(s) => Some(s.clone()),
        None => None,
    }
}

/// A checklist item, owned by exactly one task.
#[derive(Debug, Clone)]
pub struct SubTask {
    pub id: i64,
    pub parent_id: i64,
    pub title: String,
    pub completed: bool,
    pub sort_order: i32,
    pub created_at: String,
    pub updated_at: String,
}

pub struct SubTaskView {
    pub id: i64,
    pub parent_id: i64,
    pub title: Seq<char>,
    pub completed: bool,
    pub sort_order: i32,
    pub created_at: Seq<char>,
    pub updated_at: Seq<char>,
}

impl View for SubTask {
    type V = SubTaskView;

    open spec fn view(&self) -> SubTaskView {
        SubTaskView {
            id: self.id,
            parent_id: self.parent_id,
            title: self.title@,
            completed: self.completed,
            sort_order: self.sort_order,
            created_at: self.created_at@,
            updated_at: self.updated_at@,
        }
    }
}

impl SubTask {
    pub fn duplicate(&self) -> (r: SubTask)
        ensures
            r == *self,
            r@ == self@,
    {
        SubTask {
            id: self.id,
            parent_id: self.parent_id,
            title: self.title.clone(),
            completed: self.completed,
            sort_order: self.sort_order,
            created_at: self.created_at.clone(),
            updated_at: self.updated_at.clone(),
        }
    }
}

/// The views of a sequence of subtasks.
pub open spec fn subtask_views(s: Seq<SubTask>) -> Seq<SubTaskView> {
    s.map_values(|t: SubTask| t@)
}

/// A to-do item. `quadrant` is the Eisenhower category, 1 to 4;
/// `color` a hex colour such as `#EF4444`.
#[derive(Debug, Clone)]
pub struct Todo {
    pub id: i64,
    pub title: String,
    pub description: Option<String>,
    pub color: String,
    pub quadrant: i32,
    pub notify_at: Option<String>,
    pub notify_before: i32,
    pub notified: bool,
    pub completed: bool,
    pub sort_order: i32,
    pub start_time: Option<String>,
    pub end_time: Option<String>,
    pub created_at: String,
    pub updated_at: String,
    pub subtasks: Vec<SubTask>,
}

pub struct TodoView {
    pub id: i64,
    pub title: Seq<char>,
    pub description: Option<Seq<char>>,
    pub color: Seq<char>,
    pub quadrant: i32,
    pub notify_at: Option<Seq<char>>,
    pub notify_before: i32,
    pub notified: bool,
    pub completed: bool,
    pub sort_order: i32,
    pub start_time: Option<Seq<char>>,
    pub end_time: Option<Seq<char>>,
    pub created_at: Seq<char>,
    pub updated_at: Seq<char>,
    pub subtasks: Seq<SubTaskView>,
}

impl View for Todo {
    type V = TodoView;

    open spec fn view(&self) -> TodoView {
        TodoView {
            id: self.id,
            title: self.title@,
            description: opt_text(self.description),
            color: self.color@,
            quadrant: self.quadrant,
            notify_at: opt_text(self.notify_at),
            notify_before: self.notify_before,
            notified: self.notified,
            completed: self.completed,
            sort_order: self.sort_order,
            start_time: opt_text(self.start_time),
            end_time: opt_text(self.end_time),
            created_at: self.created_at@,
            updated_at: self.updated_at@,
            subtasks: subtask_views(self.subtasks@),
        }
    }
}

/// A copy of a sequence of subtasks.
pub fn copy_subtasks(v: &Vec<SubTask>) -> (r: Vec<SubTask>)
    ensures
        r@ == v@,
{
    let mut r: Vec<SubTask> = Vec::new();
    let mut i: usize = 0;
    while i < v.len()
        invariant
            i <= v@.len(),
            r@ == v@.subrange(0, i as int),
        decreases v@.len() - i,
    {
        r.push(v[i].duplicate());
        proof {
            assert(v@.subrange(0, i + 1) =~= v@.subrange(0, i as int).push(v@[i as int]));
        }
        i = i + 1;
    }
    proof {
        assert(v@.subrange(0, v@.len() as int) =~= v@);
    }
    r
}

impl Todo {
    pub fn duplicate(&self) -> (r: Todo)
        ensures
            r@ == self@,
            r.subtasks@ == self.subtasks@,
    {
        Todo {
            id: self.id,
            title: self.title.clone(),
            description: copy_opt_text(&self.description),
            color: self.color.clone(),
            quadrant: self.quadrant,
            notify_at: copy_opt_text(&self.notify_at),
            notify_before: self.notify_before,
            notified: self.notified,
            completed: self.completed,
            sort_order: self.sort_order,
            start_time: copy_opt_text(&self.start_time),
            end_time: copy_opt_text(&self.end_time),
            created_at: self.created_at.clone(),
            updated_at: self.updated_at.clone(),
            subtasks: copy_subtasks(&self.subtasks),
        }
    }
}

/// The quadrant a new task gets when the request names none.
pub fn default_quadrant() -> (r: i32)
    ensures
        r == 4,
{
    4
}

/// What a new task is made from.
#[derive(Debug, Clone)]
pub struct CreateTodoRequest {
    pub title: String,
    pub description: Option<String>,
    pub color: String,
    pub quadrant: i32,
    pub notify_at: Option<String>,
    pub notify_before: Option<i32>,
    pub start_time: Option<String>,
    pub end_time: Option<String>,
}

/// A partial change to a task: each `Some` field is written, each `None`
/// left as it is. A `clear_*` flag sets its field to nothing and wins over
/// a value given for the same field.
#[derive(Debug, Clone)]
pub struct UpdateTodoRequest {
    pub title: Option<String>,
    pub description: Option<String>,
    pub color: Option<String>,
    pub quadrant: Option<i32>,
    pub notify_at: Option<String>,
    pub notify_before: Option<i32>,
    pub completed: Option<bool>,
    pub sort_order: Option<i32>,
    pub clear_notify_at: bool,
    pub start_time: Option<String>,
    pub end_time: Option<String>,
    pub clear_start_time: bool,
    pub clear_end_time: bool,
}

impl UpdateTodoRequest {
    /// The change touches no field.
    pub open spec fn is_empty(&self) -> bool {
        &&& self.title is None
        &&& self.description is None
        &&& self.color is None
        &&& self.quadrant is None
        &&& self.notify_at is None
        &&& self.notify_before is None
        &&& self.completed is None
        &&& self.sort_order is None
        &&& !self.clear_notify_at
        &&& self.start_time is None
        &&& self.end_time is None
        &&& !self.clear_start_time
        &&& !self.clear_end_time
    }
}

/// What a new subtask is made from.
#[derive(Debug, Clone)]
pub struct CreateSubTaskRequest {
    pub parent_id: i64,
    pub title: String,
}

/// A partial change to a subtask.
#[derive(Debug, Clone)]
pub struct UpdateSubTaskRequest {
    pub title: Option<String>,
    pub completed: Option<bool>,
    pub sort_order: Option<i32>,
}

impl UpdateSubTaskRequest {
    /// The change touches no field.
    pub open spec fn is_empty(&self) -> bool {
        self.title is None && self.completed is None && self.sort_order is None
    }
}

/// Where the main window stands.
#[derive(Debug, Clone, Copy, PartialEq, Eq, Structural)]
pub struct WindowPosition {
    pub x: i32,
    pub y: i32,
}

/// The main window's size.
#[derive(Debug, Clone, Copy, PartialEq, Eq, Structural)]
pub struct WindowSize {
    pub width: u32,
    pub height: u32,
}

/// The window and theme preferences. `text_theme` is `light` (light text,
/// for dark backgrounds) or `dark`.
#[derive(Debug, Clone)]
pub struct AppSettings {
    pub is_fixed: bool,
    pub window_position: Option<WindowPosition>,
    pub window_size: Option<WindowSize>,
    pub text_theme: String,
}

/// The text theme when none was saved.
pub fn default_text_theme() -> (r: String)
    ensures
        r@ == seq!['d', 'a', 'r', 'k'],
{
    let mut s = String::new();
    crate::text::push_char(&mut s, 'd');
    crate::text::push_char(&mut s, 'a');
    crate::text::push_char(&mut s, 'r');
    crate::text::push_char(&mut s, 'k');
    proof {
        assert(s@ =~= seq!['d', 'a', 'r', 'k']);
    }
    s
}

/// The whole state as a versioned snapshot, for backup and restore.
#[derive(Debug, Clone)]
pub struct ExportData {
    pub version: String,
    pub exported_at: String,
    pub todos: Vec<Todo>,
    pub settings: AppSettings,
}

/// The window's place and mode saved for one monitor arrangement.
#[derive(Debug, Clone)]
pub struct ScreenConfig {
    pub id: i64,
    /// The arrangement's signature, such as `2_2560x1440@125_1920x1080@100`.
    pub config_id: String,
    /// A name the user may give the arrangement.
    pub display_name: Option<String>,
    pub window_x: i32,
    pub window_y: i32,
    pub window_width: i32,
    pub window_height: i32,
    pub is_fixed: bool,
    pub created_at: String,
    pub updated_at: String,
}

pub struct ScreenConfigView {
    pub id: i64,
    pub config_id: Seq<char>,
    pub display_name: Option<Seq<char>>,
    pub window_x: i32,
    pub window_y: i32,
    pub window_width: i32,
    pub window_height: i32,
    pub is_fixed: bool,
    pub created_at: Seq<char>,
    pub updated_at: Seq<char>,
}

impl View for ScreenConfig {
    type V = ScreenConfigView;

    open spec fn view(&self) -> ScreenConfigView {
        ScreenConfigView {
            id: self.id,
            config_id: self.config_id@,
            display_name: opt_text(self.display_name),
            window_x: self.window_x,
            window_y: self.window_y,
            window_width: self.window_width,
            window_height: self.window_height,
            is_fixed: self.is_fixed,
            created_at: self.created_at@,
            updated_at: self.updated_at@,
        }
    }
}

impl ScreenConfig {
    pub fn duplicate(&self) -> (r: ScreenConfig)
        ensures
            r@ == self@,
    {
        ScreenConfig {
            id: self.id,
            config_id: self.config_id.clone(),
            display_name: copy_opt_text(&self.display_name),
            window_x: self.window_x,
            window_y: self.window_y,
            window_width: self.window_width,
            window_height: self.window_height,
            is_fixed: self.is_fixed,
            created_at: self.created_at.clone(),
            updated_at: self.updated_at.clone(),
        }
    }
}

/// The views of a sequence of tasks.
pub open spec fn todo_views(s: Seq<Todo>) -> Seq<TodoView> {
    s.map_values(|t: Todo| t@)
}

/// What `save_screen_config` stores for an arrangement.
#[derive(Debug, Clone)]
pub struct SaveScreenConfigRequest {
    pub config_id: String,
    pub display_name: Option<String>,
    pub window_x: i32,
    pub window_y: i32,
    pub window_width: i32,
    pub window_height: i32,
    pub is_fixed: bool,
}

} // verus!
