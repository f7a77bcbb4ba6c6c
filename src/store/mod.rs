//! The task store: tasks, their subtasks, settings and screen layouts, held
//! as the rows of their tables, with the operations of each table in a
//! module of its own.
use vstd::prelude::*;
use crate::model::{
    ScreenConfig, ScreenConfigView, SubTask, SubTaskView, Todo, TodoView, WindowPosition,
    WindowSize, subtask_views, todo_views,
};
use crate::order::{sort_subtasks, sort_subtasks_exec};

pub mod tasks;
pub mod subtasks;
pub mod settings;
pub mod screens;
pub mod snapshot;
pub mod reminders;

verus! {

/// Why a store operation did not take place.
#[derive(Debug, Clone, Copy, PartialEq, Eq, Structural)]
pub enum StoreError {
    /// No record has the given id.
    NotFound,
    /// A partial update named no field.
    NoFieldsToUpdate,
    /// A new id or sort position would not fit its integer type.
    Exhausted,
}

impl StoreError {
    /// A message for the user.
    pub fn message(&self) -> (r: String)
        ensures
            r@ == match self {
                StoreError::NotFound => "Record not found"@,
                StoreError::NoFieldsToUpdate => "No fields to update"@,
                StoreError::Exhausted => "No room for another record"@,
            },
    {
        match self {
            StoreError::NotFound => String::from_str("Record not found"),
            StoreError::NoFieldsToUpdate => String::from_str("No fields to update"),
            StoreError::Exhausted => String::from_str("No room for another record"),
        }
    }
}

/// One entry of the settings table.
#[derive(Debug, Clone)]
pub struct Setting {
    pub key: String,
    pub value: String,
}

impl View for Setting {
    type V = (Seq<char>, Seq<char>);

    open spec fn view(&self) -> (Seq<char>, Seq<char>) {
        (self.key@, self.value@)
    }
}

/// The views of a sequence of settings.
pub open spec fn setting_views(s: Seq<Setting>) -> Seq<(Seq<char>, Seq<char>)> {
    s.map_values(|e: Setting| e@)
}

/// The views of a sequence of screen layouts.
pub open spec fn screen_views(s: Seq<ScreenConfig>) -> Seq<ScreenConfigView> {
    s.map_values(|c: ScreenConfig| c@)
}

/// What the store holds: the task rows in the order they were stored, the
/// subtask rows likewise, the settings table, the saved window rectangle,
/// the screen layouts, and the next id of each table.
pub struct StoreView {
    pub todos: Seq<TodoView>,
    pub subtasks: Seq<SubTaskView>,
    pub settings: Seq<(Seq<char>, Seq<char>)>,
    pub window_position: Option<WindowPosition>,
    pub window_size: Option<WindowSize>,
    pub screens: Seq<ScreenConfigView>,
    pub next_todo_id: i64,
    pub next_subtask_id: i64,
    pub next_screen_id: i64,
}

/// Some task row has id `id`.
pub open spec fn has_todo(todos: Seq<TodoView>, id: i64) -> bool {
    exists|i: int| 0 <= i < todos.len() && #[trigger] todos[i].id == id
}

/// Some subtask row has id `id`.
pub open spec fn has_subtask(subtasks: Seq<SubTaskView>, id: i64) -> bool {
    exists|k: int| 0 <= k < subtasks.len() && #[trigger] subtasks[k].id == id
}

/// The well-formed states: ids positive, distinct and below the next id,
/// every subtask owned by a stored task, screen layouts keyed uniquely.
pub open spec fn store_wf(m: StoreView) -> bool {
    &&& 0 < m.next_todo_id
    &&& 0 < m.next_subtask_id
    &&& 0 < m.next_screen_id
    &&& forall|i: int| 0 <= i < m.todos.len() ==> 0 < (#[trigger] m.todos[i]).id < m.next_todo_id
    &&& forall|i: int, j: int|
        0 <= i < j < m.todos.len() ==> (#[trigger] m.todos[i]).id != (#[trigger] m.todos[j]).id
    &&& forall|k: int|
        0 <= k < m.subtasks.len() ==> 0 < (#[trigger] m.subtasks[k]).id < m.next_subtask_id
            && has_todo(m.todos, m.subtasks[k].parent_id)
    &&& forall|k: int, l: int|
        0 <= k < l < m.subtasks.len() ==> (#[trigger] m.subtasks[k]).id
            != (#[trigger] m.subtasks[l]).id
    &&& forall|i: int| 0 <= i < m.screens.len() ==> 0 < (#[trigger] m.screens[i]).id < m.next_screen_id
    &&& forall|i: int, j: int|
        0 <= i < j < m.screens.len() ==> (#[trigger] m.screens[i]).config_id
            != (#[trigger] m.screens[j]).config_id
}

/// The subtasks of task `pid`, in the order they are stored.
pub open spec fn children(subtasks: Seq<SubTaskView>, pid: i64) -> Seq<SubTaskView>
    decreases subtasks.len(),
{
    if subtasks.len() == 0 {
        subtasks
    } else if subtasks.last().parent_id == pid {
        children(subtasks.drop_last(), pid).push(subtasks.last())
    } else {
        children(subtasks.drop_last(), pid)
    }
}

/// A stored task as it is handed out: with its subtasks in display order.
pub open spec fn listed(m: StoreView, t: TodoView) -> TodoView {
    TodoView { subtasks: sort_subtasks(children(m.subtasks, t.id)), ..t }
}

/// The store of tasks, subtasks, settings and screen layouts.
pub struct TodoStore {
    todos: Vec<Todo>,
    subtasks: Vec<SubTask>,
    settings: Vec<Setting>,
    window_position: Option<WindowPosition>,
    window_size: Option<WindowSize>,
    screens: Vec<ScreenConfig>,
    next_todo_id: i64,
    next_subtask_id: i64,
    next_screen_id: i64,
}

impl View for TodoStore {
    type V = StoreView;

    closed spec fn view(&self) -> StoreView {
        StoreView {
            todos: todo_views(self.todos@),
            subtasks: subtask_views(self.subtasks@),
            settings: setting_views(self.settings@),
            window_position: self.window_position,
            window_size: self.window_size,
            screens: screen_views(self.screens@),
            next_todo_id: self.next_todo_id,
            next_subtask_id: self.next_subtask_id,
            next_screen_id: self.next_screen_id,
        }
    }
}

impl TodoStore {
    pub open spec fn wf(&self) -> bool {
        store_wf(self@)
    }

    /// An empty store, as on first start.
    pub fn new() -> (r: TodoStore)
        ensures
            r.wf(),
            r@.todos.len() == 0,
            r@.subtasks.len() == 0,
            r@.settings.len() == 0,
            r@.window_position is None,
            r@.window_size is None,
            r@.screens.len() == 0,
            r@.next_todo_id == 1,
            r@.next_subtask_id == 1,
            r@.next_screen_id == 1,
    {
        let r = TodoStore {
            todos: Vec::new(),
            subtasks: Vec::new(),
            settings: Vec::new(),
            window_position: None,
            window_size: None,
            screens: Vec::new(),
            next_todo_id: 1,
            next_subtask_id: 1,
            next_screen_id: 1,
        };
        proof {
            assert(r@.todos =~= Seq::<TodoView>::empty());
            assert(r@.subtasks =~= Seq::<SubTaskView>::empty());
            assert(r@.screens =~= Seq::<ScreenConfigView>::empty());
            assert(r@.settings =~= Seq::<(Seq<char>, Seq<char>)>::empty());
        }
        r
    }

    /// The position of the task row with id `id`.
    fn todo_index(&self, id: i64) -> (r: Option<usize>)
        ensures
            r is Some <==> has_todo(self@.todos, id),
            r is Some ==> r.unwrap() < self@.todos.len() && self@.todos[r.unwrap() as int].id
                == id,
    {
        let mut i: usize = 0;
        while i < self.todos.len()
            invariant
                i <= self.todos@.len(),
                self@.todos == todo_views(self.todos@),
                forall|j: int| 0 <= j < i ==> #[trigger] self@.todos[j].id != id,
            decreases self.todos@.len() - i,
        {
            if self.todos[i].id == id {
                proof {
                    assert(self@.todos[i as int].id == id);
                }
                return Some(i);
            }
            i = i + 1;
        }
        None
    }

    /// The position of the subtask row with id `id`.
    fn subtask_index(&self, id: i64) -> (r: Option<usize>)
        ensures
            r is Some <==> has_subtask(self@.subtasks, id),
            r is Some ==> r.unwrap() < self@.subtasks.len() && self@.subtasks[r.unwrap() as int].id
                == id,
    {
        let mut i: usize = 0;
        while i < self.subtasks.len()
            invariant
                i <= self.subtasks@.len(),
                self@.subtasks == subtask_views(self.subtasks@),
                forall|j: int| 0 <= j < i ==> #[trigger] self@.subtasks[j].id != id,
            decreases self.subtasks@.len() - i,
        {
            if self.subtasks[i].id == id {
                proof {
                    assert(self@.subtasks[i as int].id == id);
                }
                return Some(i);
            }
            i = i + 1;
        }
        None
    }

    /// Copies of the subtasks of task `pid`, in the order they are stored.
    fn children_of(&self, pid: i64) -> (r: Vec<SubTask>)
        ensures
            subtask_views(r@) == children(self@.subtasks, pid),
    {
        let mut r: Vec<SubTask> = Vec::new();
        let mut i: usize = 0;
        while i < self.subtasks.len()
            invariant
                i <= self.subtasks@.len(),
                self@.subtasks == subtask_views(self.subtasks@),
                subtask_views(r@) == children(self@.subtasks.subrange(0, i as int), pid),
            decreases self.subtasks@.len() - i,
        {
            let ghost before = subtask_views(r@);
            proof {
                assert(self@.subtasks.subrange(0, i + 1).drop_last() =~= self@.subtasks.subrange(
                    0,
                    i as int,
                ));
            }
            if self.subtasks[i].parent_id == pid {
                r.push(self.subtasks[i].duplicate());
                proof {
                    assert(subtask_views(r@) =~= before.push(self@.subtasks[i as int]));
                }
            }
            i = i + 1;
        }
        proof {
            assert(self@.subtasks.subrange(0, self.subtasks@.len() as int) =~= self@.subtasks);
        }
        r
    }

    /// The task row at `i` as it is handed out.
    fn listed_at(&self, i: usize) -> (r: Todo)
        requires
            i < self@.todos.len(),
        ensures
            r@ == listed(self@, self@.todos[i as int]),
    {
        let mut t = self.todos[i].duplicate();
        let kids = self.children_of(t.id);
        t.subtasks = sort_subtasks_exec(kids);
        proof {
            assert(t@ =~= listed(self@, self@.todos[i as int]));
        }
        t
    }
}

} // verus!
