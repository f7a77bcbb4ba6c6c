//! Listing, creating, changing, deleting and reordering tasks.
use vstd::prelude::*;
use crate::datetime::{LocalDateTime, stamp_of, stamp_text};
use crate::model::{
    CreateTodoRequest, SubTask, SubTaskView, Todo, TodoView, UpdateTodoRequest, copy_opt_text, copy_subtasks,
    opt_text, subtask_views, todo_views,
};
use crate::order::{
    lemma_sort_subtasks_sorted, lemma_sort_todos_sorted, sort_subtasks, sort_todos_exec,
    subtasks_sorted, todos_sorted,
};
use super::{StoreError, StoreView, TodoStore, children, has_todo, listed, store_wf};

verus! {

/// The highest sort order among open tasks, if any task is open.
pub open spec fn max_open_order(todos: Seq<TodoView>) -> Option<int>
    decreases todos.len(),
{
    if todos.len() == 0 {
        None
    } else {
        let m = max_open_order(todos.drop_last());
        let t = todos.last();
        if t.completed {
            m
        } else {
            match m {
                None => Some(t.sort_order as int),
                Some(v) => Some(if t.sort_order > v { t.sort_order as int } else { v }),
            }
        }
    }
}

/// The sort order a new task gets: one past the highest among open tasks,
/// or 0 when none is open.
pub open spec fn next_open_order(todos: Seq<TodoView>) -> int {
    match max_open_order(todos) {
        Some(m) => m + 1,
        None => 0,
    }
}

/// No id or sort position is left for a new task.
pub open spec fn create_exhausted(m: StoreView) -> bool {
    m.next_todo_id == i64::MAX || next_open_order(m.todos) > i32::MAX
}

/// The row a create request makes: open, not yet notified, its reminder
/// lead time 0 unless given, created and updated at `stamp`.
pub open spec fn new_todo(data: CreateTodoRequest, id: i64, sort_order: int, stamp: Seq<char>) -> TodoView {
    TodoView {
        id: id,
        title: data.title@,
        description: opt_text(data.description),
        color: data.color@,
        quadrant: data.quadrant,
        notify_at: opt_text(data.notify_at),
        notify_before: match data.notify_before {
            Some(n) => n,
            None => 0,
        },
        notified: false,
        completed: false,
        sort_order: sort_order as i32,
        start_time: opt_text(data.start_time),
        end_time: opt_text(data.end_time),
        created_at: stamp,
        updated_at: stamp,
        subtasks: Seq::empty(),
    }
}

/// The store after creating a task: the new row last, with the next id
/// and one past the highest sort order among open tasks.
pub open spec fn after_create(m: StoreView, data: CreateTodoRequest, stamp: Seq<char>) -> StoreView {
    StoreView {
        todos: m.todos.push(new_todo(data, m.next_todo_id, next_open_order(m.todos), stamp)),
        next_todo_id: (m.next_todo_id + 1) as i64,
        ..m
    }
}

/// A task after a partial change: only the fields the change names are
/// written; setting or clearing the reminder time re-arms the reminder;
/// the update time is always refreshed.
pub open spec fn patched(t: TodoView, d: UpdateTodoRequest, stamp: Seq<char>) -> TodoView {
    TodoView {
        title: match d.title {
            Some(s) => s@,
            None => t.title,
        },
        description: if d.description is Some {
            opt_text(d.description)
        } else {
            t.description
        },
        color: match d.color {
            Some(s) => s@,
            None => t.color,
        },
        quadrant: match d.quadrant {
            Some(q) => q,
            None => t.quadrant,
        },
        notify_at: if d.clear_notify_at {
            None
        } else if d.notify_at is Some {
            opt_text(d.notify_at)
        } else {
            t.notify_at
        },
        notified: if d.clear_notify_at || d.notify_at is Some {
            false
        } else {
            t.notified
        },
        notify_before: match d.notify_before {
            Some(n) => n,
            None => t.notify_before,
        },
        completed: match d.completed {
            Some(c) => c,
            None => t.completed,
        },
        sort_order: match d.sort_order {
            Some(o) => o,
            None => t.sort_order,
        },
        start_time: if d.clear_start_time {
            None
        } else if d.start_time is Some {
            opt_text(d.start_time)
        } else {
            t.start_time
        },
        end_time: if d.clear_end_time {
            None
        } else if d.end_time is Some {
            opt_text(d.end_time)
        } else {
            t.end_time
        },
        updated_at: stamp,
        ..t
    }
}

/// The tasks without the one with id `id`.
pub open spec fn without_todo(todos: Seq<TodoView>, id: i64) -> Seq<TodoView>
    decreases todos.len(),
{
    if todos.len() == 0 {
        todos
    } else if todos.last().id == id {
        without_todo(todos.drop_last(), id)
    } else {
        without_todo(todos.drop_last(), id).push(todos.last())
    }
}

/// The subtasks not owned by task `pid`.
pub open spec fn without_children(subtasks: Seq<SubTaskView>, pid: i64) -> Seq<SubTaskView>
    decreases subtasks.len(),
{
    if subtasks.len() == 0 {
        subtasks
    } else if subtasks.last().parent_id == pid {
        without_children(subtasks.drop_last(), pid)
    } else {
        without_children(subtasks.drop_last(), pid).push(subtasks.last())
    }
}

/// The store after deleting task `id`: the task and every subtask it owns
/// are gone.
pub open spec fn after_delete(m: StoreView, id: i64) -> StoreView {
    StoreView {
        todos: without_todo(m.todos, id),
        subtasks: without_children(m.subtasks, id),
        ..m
    }
}

/// The last position of `id` in `ids`, or -1.
pub open spec fn last_position(ids: Seq<i64>, id: i64) -> int
    decreases ids.len(),
{
    if ids.len() == 0 {
        -1
    } else if ids.last() == id {
        ids.len() - 1
    } else {
        last_position(ids.drop_last(), id)
    }
}

/// A task after a reorder: a task named in `ids` takes the position of its
/// (last) mention as its sort order; any other task is left as it was.
pub open spec fn reordered(t: TodoView, ids: Seq<i64>, stamp: Seq<char>) -> TodoView {
    if last_position(ids, t.id) >= 0 {
        TodoView { sort_order: last_position(ids, t.id) as i32, updated_at: stamp, ..t }
    } else {
        t
    }
}

pub open spec fn after_reorder(m: StoreView, ids: Seq<i64>, stamp: Seq<char>) -> StoreView {
    StoreView {
        todos: Seq::new(m.todos.len(), |i: int| reordered(m.todos[i], ids, stamp)),
        ..m
    }
}

/// The highest open sort order bounds every open task's and belongs to
/// one of them; there is none exactly when no task is open.
pub proof fn lemma_max_open_order(todos: Seq<TodoView>)
    ensures
        max_open_order(todos) is None <==> forall|i: int|
            0 <= i < todos.len() ==> (#[trigger] todos[i]).completed,
        max_open_order(todos) is Some ==> i32::MIN <= max_open_order(todos).unwrap() <= i32::MAX,
        max_open_order(todos) is Some ==> exists|i: int|
            0 <= i < todos.len() && !(#[trigger] todos[i]).completed && todos[i].sort_order
                == max_open_order(todos).unwrap(),
        forall|i: int|
            0 <= i < todos.len() && !(#[trigger] todos[i]).completed ==> todos[i].sort_order
                <= max_open_order(todos).unwrap(),
    decreases todos.len(),
{
    if todos.len() > 0 {
        let t0 = todos.drop_last();
        lemma_max_open_order(t0);
        assert forall|i: int| 0 <= i < t0.len() implies #[trigger] t0[i] == todos[i] by {}
        let last = todos.len() - 1;
        if max_open_order(todos) is Some {
            if max_open_order(todos).unwrap() == todos[last].sort_order && !todos[last].completed {
                assert(!todos[last].completed && todos[last].sort_order == max_open_order(todos).unwrap());
            } else {
                let i = choose|i: int|
                    0 <= i < t0.len() && !(#[trigger] t0[i]).completed && t0[i].sort_order
                        == max_open_order(t0).unwrap();
                assert(todos[i] == t0[i]);
            }
        }
        if max_open_order(todos) is None {
            assert forall|i: int| 0 <= i < todos.len() implies (#[trigger] todos[i]).completed by {
                if i < last {
                    assert(todos[i] == t0[i]);
                }
            }
        } else {
            if max_open_order(t0) is None && todos[last].completed {
                assert(false);
            }
        }
        assert forall|i: int| 0 <= i < todos.len() && !(#[trigger] todos[i]).completed implies todos[i].sort_order
            <= max_open_order(todos).unwrap() by {
            if i < last {
                assert(todos[i] == t0[i]);
            }
        }
    } else {
        assert forall|i: int| 0 <= i < todos.len() implies (#[trigger] todos[i]).completed by {}
    }
}

proof fn lemma_without_todo_keeps(todos: Seq<TodoView>, id: i64, p: i64)
    requires
        has_todo(todos, p),
        p != id,
    ensures
        has_todo(without_todo(todos, id), p),
    decreases todos.len(),
{
    let w = without_todo(todos, id);
    if todos.last().id == p {
        assert(w.last().id == p);
        assert(w[w.len() - 1].id == p);
    } else {
        let i = choose|i: int| 0 <= i < todos.len() && #[trigger] todos[i].id == p;
        assert(todos.drop_last()[i].id == p);
        lemma_without_todo_keeps(todos.drop_last(), id, p);
        let w0 = without_todo(todos.drop_last(), id);
        let j = choose|j: int| 0 <= j < w0.len() && #[trigger] w0[j].id == p;
        if todos.last().id != id {
            assert(w[j] == w0[j]);
        }
    }
}

proof fn lemma_without_todo_sub(todos: Seq<TodoView>, id: i64)
    ensures
        forall|j: int|
            0 <= j < without_todo(todos, id).len() ==> (#[trigger] without_todo(todos, id)[j]).id
                != id && exists|i: int|
                0 <= i < todos.len() && todos[i] == without_todo(todos, id)[j],
        without_todo(todos, id).len() <= todos.len(),
    decreases todos.len(),
{
    if todos.len() > 0 {
        let w0 = without_todo(todos.drop_last(), id);
        let w = without_todo(todos, id);
        lemma_without_todo_sub(todos.drop_last(), id);
        assert forall|j: int| 0 <= j < w.len() implies (#[trigger] w[j]).id != id && exists|i: int|
            0 <= i < todos.len() && todos[i] == w[j] by {
            if j < w0.len() {
                assert(w[j] == w0[j]);
                let i = choose|i: int|
                    0 <= i < todos.drop_last().len() && todos.drop_last()[i] == w0[j];
                assert(todos[i] == w0[j]);
            } else {
                assert(todos[todos.len() - 1] == w[j]);
            }
        }
    }
}

proof fn lemma_without_todo_distinct(todos: Seq<TodoView>, id: i64)
    requires
        forall|i: int, j: int|
            0 <= i < j < todos.len() ==> (#[trigger] todos[i]).id != (#[trigger] todos[j]).id,
    ensures
        forall|i: int, j: int|
            0 <= i < j < without_todo(todos, id).len() ==> (#[trigger] without_todo(todos, id)[i]).id
                != (#[trigger] without_todo(todos, id)[j]).id,
    decreases todos.len(),
{
    if todos.len() > 0 {
        let t0 = todos.drop_last();
        let w0 = without_todo(t0, id);
        let w = without_todo(todos, id);
        lemma_without_todo_distinct(t0, id);
        lemma_without_todo_sub(t0, id);
        if todos.last().id != id {
            assert forall|i: int, j: int| 0 <= i < j < w.len() implies (#[trigger] w[i]).id
                != (#[trigger] w[j]).id by {
                if j == w.len() - 1 {
                    assert(w[i] == w0[i]);
                    let k = choose|k: int| 0 <= k < t0.len() && t0[k] == w0[i];
                    assert(todos[k] == t0[k]);
                } else {
                    assert(w[i] == w0[i]);
                    assert(w[j] == w0[j]);
                }
            }
        }
    }
}

proof fn lemma_without_children_sub(subtasks: Seq<SubTaskView>, pid: i64)
    ensures
        forall|j: int|
            0 <= j < without_children(subtasks, pid).len() ==> (#[trigger] without_children(
                subtasks,
                pid,
            )[j]).parent_id != pid && exists|k: int|
                0 <= k < subtasks.len() && subtasks[k] == without_children(subtasks, pid)[j],
    decreases subtasks.len(),
{
    if subtasks.len() > 0 {
        let s0 = subtasks.drop_last();
        let w0 = without_children(s0, pid);
        let w = without_children(subtasks, pid);
        lemma_without_children_sub(s0, pid);
        assert forall|j: int| 0 <= j < w.len() implies (#[trigger] w[j]).parent_id != pid
            && exists|k: int| 0 <= k < subtasks.len() && subtasks[k] == w[j] by {
            if j < w0.len() {
                assert(w[j] == w0[j]);
                let k = choose|k: int| 0 <= k < s0.len() && s0[k] == w0[j];
                assert(subtasks[k] == w0[j]);
            } else {
                assert(subtasks[subtasks.len() - 1] == w[j]);
            }
        }
    }
}

proof fn lemma_without_children_distinct(subtasks: Seq<SubTaskView>, pid: i64)
    requires
        forall|k: int, l: int|
            0 <= k < l < subtasks.len() ==> (#[trigger] subtasks[k]).id != (#[trigger] subtasks[l]).id,
    ensures
        forall|k: int, l: int|
            0 <= k < l < without_children(subtasks, pid).len() ==> (#[trigger] without_children(
                subtasks,
                pid,
            )[k]).id != (#[trigger] without_children(subtasks, pid)[l]).id,
    decreases subtasks.len(),
{
    if subtasks.len() > 0 {
        let s0 = subtasks.drop_last();
        let w0 = without_children(s0, pid);
        let w = without_children(subtasks, pid);
        lemma_without_children_distinct(s0, pid);
        lemma_without_children_sub(s0, pid);
        if subtasks.last().parent_id != pid {
            assert forall|i: int, j: int| 0 <= i < j < w.len() implies (#[trigger] w[i]).id
                != (#[trigger] w[j]).id by {
                if j == w.len() - 1 {
                    assert(w[i] == w0[i]);
                    let k = choose|k: int| 0 <= k < s0.len() && s0[k] == w0[i];
                    assert(subtasks[k] == s0[k]);
                } else {
                    assert(w[i] == w0[i]);
                    assert(w[j] == w0[j]);
                }
            }
        }
    }
}

/// Deleting a task keeps the store well formed.
proof fn lemma_after_delete_wf(m: StoreView, id: i64)
    requires
        store_wf(m),
    ensures
        store_wf(after_delete(m, id)),
{
    let a = after_delete(m, id);
    lemma_without_todo_sub(m.todos, id);
    lemma_without_todo_distinct(m.todos, id);
    lemma_without_children_sub(m.subtasks, id);
    lemma_without_children_distinct(m.subtasks, id);
    assert forall|i: int| 0 <= i < a.todos.len() implies 0 < (#[trigger] a.todos[i]).id
        < a.next_todo_id by {
        let k = choose|k: int| 0 <= k < m.todos.len() && m.todos[k] == a.todos[i];
    }
    assert forall|k: int| 0 <= k < a.subtasks.len() implies 0 < (#[trigger] a.subtasks[k]).id
        < a.next_subtask_id && has_todo(a.todos, a.subtasks[k].parent_id) by {
        let l = choose|l: int| 0 <= l < m.subtasks.len() && m.subtasks[l] == a.subtasks[k];
        assert(m.subtasks[l].parent_id != id);
        lemma_without_todo_keeps(m.todos, id, m.subtasks[l].parent_id);
    }
}

/// After a task is deleted, no subtask row refers to it.
pub proof fn lemma_delete_leaves_no_orphans(m: StoreView, id: i64)
    requires
        store_wf(m),
    ensures
        forall|k: int|
            0 <= k < after_delete(m, id).subtasks.len() ==> (#[trigger] after_delete(
                m,
                id,
            ).subtasks[k]).parent_id != id,
        !has_todo(after_delete(m, id).todos, id),
        store_wf(after_delete(m, id)),
        forall|k: int|
            0 <= k < after_delete(m, id).subtasks.len() ==> has_todo(
                after_delete(m, id).todos,
                #[trigger] after_delete(m, id).subtasks[k].parent_id,
            ),
{
    lemma_without_children_sub(m.subtasks, id);
    lemma_without_todo_sub(m.todos, id);
    lemma_after_delete_wf(m, id);
}

/// A task read back right after it is created is open and not yet
/// notified, has no subtasks, and sorts after every open task: one past the
/// highest open sort order, or 0 when no task was open.
pub proof fn lemma_created_task_reads_back(m: StoreView, data: CreateTodoRequest, stamp: Seq<char>)
    requires
        store_wf(m),
        !create_exhausted(m),
    ensures
        has_todo(after_create(m, data, stamp).todos, m.next_todo_id),
        forall|i: int|
            0 <= i < after_create(m, data, stamp).todos.len() && (#[trigger] after_create(
                m,
                data,
                stamp,
            ).todos[i]).id == m.next_todo_id ==> {
                let t = listed(after_create(m, data, stamp), after_create(m, data, stamp).todos[i]);
                &&& i == m.todos.len()
                &&& !t.notified
                &&& !t.completed
                &&& t.subtasks.len() == 0
                &&& t.sort_order == next_open_order(m.todos)
            },
        forall|i: int|
            0 <= i < m.todos.len() && !(#[trigger] m.todos[i]).completed ==> m.todos[i].sort_order
                < next_open_order(m.todos),
        (forall|i: int| 0 <= i < m.todos.len() ==> (#[trigger] m.todos[i]).completed) ==> next_open_order(m.todos) == 0,
{
    let a = after_create(m, data, stamp);
    let n = m.todos.len();
    assert(a.todos[n as int].id == m.next_todo_id);
    lemma_max_open_order(m.todos);
    if has_todo(m.todos, m.next_todo_id) {
        let i = choose|i: int| 0 <= i < m.todos.len() && #[trigger] m.todos[i].id == m.next_todo_id;
        assert(m.todos[i].id < m.next_todo_id);
    }
    lemma_children_of_absent(m.subtasks, m.todos, m.next_todo_id);
    let c = children(a.subtasks, m.next_todo_id);
    assert(c =~= Seq::<SubTaskView>::empty());
    assert(sort_subtasks(c) == c);
    assert forall|i: int| 0 <= i < a.todos.len() && (#[trigger] a.todos[i]).id == m.next_todo_id implies i == n by {
        if i < n {
            assert(a.todos[i] == m.todos[i]);
        }
    }
}

/// After a reorder, a task named once in `ids` has its position there as
/// sort order (narrowed to 32 bits, as sort orders are stored), and a task
/// not named is left exactly as it was.
pub proof fn lemma_reorder_positions(m: StoreView, ids: Seq<i64>, stamp: Seq<char>)
    ensures
        forall|i: int, k: int|
            #![trigger after_reorder(m, ids, stamp).todos[i], ids[k]]
            0 <= i < m.todos.len() && 0 <= k < ids.len() && ids[k] == m.todos[i].id && (forall|j: int|
                0 <= j < ids.len() && j != k ==> ids[j] != ids[k]) ==> after_reorder(
                m,
                ids,
                stamp,
            ).todos[i].sort_order == k as i32,
        forall|i: int|
            0 <= i < m.todos.len() && (forall|j: int| 0 <= j < ids.len() ==> ids[j] != m.todos[i].id)
                ==> #[trigger] after_reorder(m, ids, stamp).todos[i] == m.todos[i],
{
    assert forall|i: int, k: int|
        #![trigger after_reorder(m, ids, stamp).todos[i], ids[k]]
        0 <= i < m.todos.len() && 0 <= k < ids.len() && ids[k] == m.todos[i].id && (forall|j: int|
            0 <= j < ids.len() && j != k ==> ids[j] != ids[k]) implies after_reorder(
            m,
            ids,
            stamp,
        ).todos[i].sort_order == k as i32 by {
        lemma_last_position_unique(ids, k);
    }
    assert forall|i: int|
        0 <= i < m.todos.len() && (forall|j: int| 0 <= j < ids.len() ==> ids[j] != m.todos[i].id)
            implies #[trigger] after_reorder(m, ids, stamp).todos[i] == m.todos[i] by {
        lemma_last_position_absent(ids, m.todos[i].id);
    }
}

proof fn lemma_last_position_unique(ids: Seq<i64>, k: int)
    requires
        0 <= k < ids.len(),
        forall|j: int| 0 <= j < ids.len() && j != k ==> ids[j] != ids[k],
    ensures
        last_position(ids, ids[k]) == k,
    decreases ids.len(),
{
    if k < ids.len() - 1 {
        let d = ids.drop_last();
        assert forall|j: int| 0 <= j < d.len() && j != k implies d[j] != d[k] by {
            assert(d[j] == ids[j]);
        }
        assert(ids.last() != ids[k]);
        lemma_last_position_unique(d, k);
        assert(d[k] == ids[k]);
    }
}

proof fn lemma_last_position_absent(ids: Seq<i64>, id: i64)
    requires
        forall|j: int| 0 <= j < ids.len() ==> ids[j] != id,
    ensures
        last_position(ids, id) == -1,
    decreases ids.len(),
{
    if ids.len() > 0 {
        let d = ids.drop_last();
        assert forall|j: int| 0 <= j < d.len() implies d[j] != id by {
            assert(d[j] == ids[j]);
        }
        assert(ids[ids.len() - 1] != id);
        lemma_last_position_absent(d, id);
    }
}

/// Setting a task's reminder time, or clearing it, re-arms the reminder.
pub proof fn lemma_reminder_rearmed(t: TodoView, d: UpdateTodoRequest, stamp: Seq<char>)
    requires
        d.notify_at is Some || d.clear_notify_at,
    ensures
        !patched(t, d, stamp).notified,
        d.clear_notify_at ==> patched(t, d, stamp).notify_at is None,
        !d.clear_notify_at ==> patched(t, d, stamp).notify_at == opt_text(d.notify_at),
{
}

impl TodoStore {
    /// Every task, in display order (open before done, then by sort order,
    /// then the most recently created first), each with its subtasks in
    /// sort order.
    pub fn get_todos(&self) -> (r: Vec<Todo>)
        requires
            self.wf(),
        ensures
            todos_sorted(todo_views(r@)),
            todo_views(r@).to_multiset() == Seq::new(
                self@.todos.len(),
                |i: int| listed(self@, self@.todos[i]),
            ).to_multiset(),
            forall|k: int|
                0 <= k < r@.len() ==> subtasks_sorted((#[trigger] r@[k])@.subtasks) && r@[k]@.subtasks.to_multiset()
                    == children(self@.subtasks, r@[k].id).to_multiset(),
    {
        let mut all: Vec<Todo> = Vec::new();
        let mut i: usize = 0;
        while i < self.todos.len()
            invariant
                i <= self@.todos.len(),
                self@.todos.len() == self.todos@.len(),
                todo_views(all@) =~= Seq::new(i as nat, |j: int| listed(self@, self@.todos[j])),
            decreases self@.todos.len() - i,
        {
            let t = self.listed_at(i);
            let ghost before = todo_views(all@);
            all.push(t);
            proof {
                assert(todo_views(all@) =~= before.push(t@));
            }
            i = i + 1;
        }
        let ghost input = todo_views(all@);
        let r = sort_todos_exec(all);
        proof {
            lemma_sort_todos_sorted(input);
            assert forall|k: int| 0 <= k < r@.len() implies subtasks_sorted((#[trigger] r@[k])@.subtasks)
                && r@[k]@.subtasks.to_multiset() == children(self@.subtasks, r@[k].id).to_multiset() by {
                broadcast use vstd::seq_lib::to_multiset_contains;
                let out = todo_views(r@);
                assert(out[k] == r@[k]@);
                assert(out.contains(out[k]));
                assert(out.to_multiset().count(out[k]) > 0);
                assert(input.contains(out[k]));
                let i = choose|i: int| 0 <= i < input.len() && input[i] == out[k];
                lemma_sort_subtasks_sorted(children(self@.subtasks, self@.todos[i].id));
            }
        }
        r
    }

    /// The task with id `id` as it is handed out, if it is stored.
    pub fn get_todo(&self, id: i64) -> (r: Option<Todo>)
        requires
            self.wf(),
        ensures
            r is Some <==> has_todo(self@.todos, id),
            r is Some ==> exists|i: int|
                0 <= i < self@.todos.len() && self@.todos[i].id == id && r.unwrap()@ == listed(
                    self@,
                    self@.todos[i],
                ),
    {
        match self.todo_index(id) {
            Some(i) => Some(self.listed_at(i)),
            None => None,
        }
    }

    /// The highest sort order among open tasks, if any is open.
    fn max_open_order_exec(&self) -> (r: Option<i32>)
        ensures
            match r {
                Some(v) => max_open_order(self@.todos) == Some(v as int),
                None => max_open_order(self@.todos) is None,
            },
    {
        let mut m: Option<i32> = None;
        let mut i: usize = 0;
        while i < self.todos.len()
            invariant
                i <= self.todos@.len(),
                self@.todos == todo_views(self.todos@),
                match m {
                    Some(v) => max_open_order(self@.todos.subrange(0, i as int)) == Some(v as int),
                    None => max_open_order(self@.todos.subrange(0, i as int)) is None,
                },
            decreases self.todos@.len() - i,
        {
            proof {
                assert(self@.todos.subrange(0, i + 1).drop_last() =~= self@.todos.subrange(
                    0,
                    i as int,
                ));
            }
            if !self.todos[i].completed {
                let o = self.todos[i].sort_order;
                m = match m {
                    None => Some(o),
                    Some(v) => Some(if o > v { o } else { v }),
                };
            }
            i = i + 1;
        }
        proof {
            assert(self@.todos.subrange(0, self.todos@.len() as int) =~= self@.todos);
        }
        m
    }

    /// Creates a task after the open ones: its sort order is one past the
    /// highest among open tasks (0 when there is none), it is not yet
    /// notified, and it has no subtasks.
    pub fn create_todo(&mut self, data: CreateTodoRequest, now: &LocalDateTime) -> (r: Result<
        Todo,
        StoreError,
    >)
        requires
            old(self).wf(),
        ensures
            final(self).wf(),
            match r {
                Ok(t) => {
                    &&& !create_exhausted(old(self)@)
                    &&& final(self)@ == after_create(old(self)@, data, stamp_text(*now))
                    &&& t@ == new_todo(
                        data,
                        old(self)@.next_todo_id,
                        next_open_order(old(self)@.todos),
                        stamp_text(*now),
                    )
                    &&& t@ == listed(final(self)@, final(self)@.todos.last())
                },
                Err(e) => create_exhausted(old(self)@) && e == StoreError::Exhausted
                    && final(self)@ == old(self)@,
            },
    {
        let next: i64 = match self.max_open_order_exec() {
            Some(v) => v as i64 + 1,
            None => 0,
        };
        if self.next_todo_id == i64::MAX || next > i32::MAX as i64 {
            return Err(StoreError::Exhausted);
        }
        let stamp = stamp_of(now);
        let id = self.next_todo_id;
        let row = Todo {
            id: id,
            title: data.title.clone(),
            description: copy_opt_text(&data.description),
            color: data.color.clone(),
            quadrant: data.quadrant,
            notify_at: copy_opt_text(&data.notify_at),
            notify_before: match data.notify_before {
                Some(n) => n,
                None => 0,
            },
            notified: false,
            completed: false,
            sort_order: next as i32,
            start_time: copy_opt_text(&data.start_time),
            end_time: copy_opt_text(&data.end_time),
            created_at: stamp.clone(),
            updated_at: stamp,
            subtasks: Vec::new(),
        };
        let out = row.duplicate();
        let ghost old_m = self@;
        self.todos.push(row);
        self.next_todo_id = id + 1;
        proof {
            assert(out@.subtasks =~= Seq::<SubTaskView>::empty());
            assert(self@.todos =~= old_m.todos.push(out@));
            assert(self@ =~= after_create(old_m, data, stamp_text(*now)));
            self.lemma_no_children_of_fresh(old_m);
            let c = children(self@.subtasks, id);
            assert(c =~= Seq::<SubTaskView>::empty());
            assert(sort_subtasks(c) == c);
            assert(out@ =~= listed(self@, self@.todos.last()));
            assert forall|i: int| 0 <= i < self@.todos.len() implies 0 < (#[trigger] self@.todos[i]).id
                < self@.next_todo_id by {
                if i < old_m.todos.len() {
                    assert(self@.todos[i] == old_m.todos[i]);
                }
            }
            assert forall|k: int| 0 <= k < self@.subtasks.len() implies 0
                < (#[trigger] self@.subtasks[k]).id < self@.next_subtask_id && has_todo(
                self@.todos,
                self@.subtasks[k].parent_id,
            ) by {
                let p = self@.subtasks[k].parent_id;
                assert(old_m.subtasks[k] == self@.subtasks[k]);
                let i = choose|i: int| 0 <= i < old_m.todos.len() && #[trigger] old_m.todos[i].id == p;
                assert(self@.todos[i] == old_m.todos[i]);
            }
        }
        Ok(out)
    }

    /// With no subtask row owned by the id just given out.
    proof fn lemma_no_children_of_fresh(&self, old_m: StoreView)
        requires
            store_wf(old_m),
            self@.subtasks == old_m.subtasks,
        ensures
            children(self@.subtasks, old_m.next_todo_id).len() == 0,
    {
        if has_todo(old_m.todos, old_m.next_todo_id) {
            let i = choose|i: int| 0 <= i < old_m.todos.len() && #[trigger] old_m.todos[i].id == old_m.next_todo_id;
            assert(old_m.todos[i].id < old_m.next_todo_id);
        }
        lemma_children_of_absent(old_m.subtasks, old_m.todos, old_m.next_todo_id);
    }

    /// Changes the fields that `data` names of task `id`. A change that
    /// names no field fails with `NoFieldsToUpdate`, one for an id not
    /// stored with `NotFound`; the store is then unchanged. Otherwise the
    /// changed task is returned with its subtasks.
    pub fn update_todo(&mut self, id: i64, data: UpdateTodoRequest, now: &LocalDateTime) -> (r:
        Result<Todo, StoreError>)
        requires
            old(self).wf(),
        ensures
            final(self).wf(),
            data.is_empty() ==> r == Err::<Todo, StoreError>(StoreError::NoFieldsToUpdate)
                && final(self)@ == old(self)@,
            !data.is_empty() && !has_todo(old(self)@.todos, id) ==> r == Err::<Todo, StoreError>(
                StoreError::NotFound,
            ) && final(self)@ == old(self)@,
            !data.is_empty() && has_todo(old(self)@.todos, id) ==> r is Ok && exists|i: int|
                0 <= i < old(self)@.todos.len() && old(self)@.todos[i].id == id && final(self)@
                    == (StoreView {
                    todos: old(self)@.todos.update(
                        i,
                        patched(old(self)@.todos[i], data, stamp_text(*now)),
                    ),
                    ..old(self)@
                }) && r.unwrap()@ == listed(final(self)@, final(self)@.todos[i]),
    {
        if data.title.is_none() && data.description.is_none() && data.color.is_none()
            && data.quadrant.is_none() && data.notify_at.is_none() && data.notify_before.is_none()
            && data.completed.is_none() && data.sort_order.is_none() && !data.clear_notify_at
            && data.start_time.is_none() && data.end_time.is_none() && !data.clear_start_time
            && !data.clear_end_time {
            return Err(StoreError::NoFieldsToUpdate);
        }
        let i = match self.todo_index(id) {
            Some(i) => i,
            None => {
                return Err(StoreError::NotFound);
            },
        };
        let stamp = stamp_of(now);
        let row = patch_row(&self.todos[i], &data, stamp);
        let ghost old_m = self@;
        let ghost new_v = row@;
        proof {
            assert(self@.todos[i as int] == self.todos@[i as int]@);
        }
        self.todos.set(i, row);
        proof {
            assert(self@.todos =~= old_m.todos.update(i as int, new_v));
            assert(self@ =~= (StoreView { todos: old_m.todos.update(i as int, new_v), ..old_m }));
            self.lemma_same_ids_wf(old_m);
        }
        let out = self.listed_at(i);
        Ok(out)
    }

    /// A store whose task ids are those of a well-formed one, all else
    /// equal but the task fields, is well formed.
    pub(crate) proof fn lemma_same_ids_wf(&self, old_m: StoreView)
        requires
            store_wf(old_m),
            self@.todos.len() == old_m.todos.len(),
            forall|i: int| 0 <= i < old_m.todos.len() ==> (#[trigger] self@.todos[i]).id == old_m.todos[i].id,
            self@.subtasks == old_m.subtasks,
            self@.screens == old_m.screens,
            self@.next_todo_id == old_m.next_todo_id,
            self@.next_subtask_id == old_m.next_subtask_id,
            self@.next_screen_id == old_m.next_screen_id,
        ensures
            self.wf(),
    {
        let m = self@;
        assert forall|i: int, j: int| 0 <= i < j < m.todos.len() implies (#[trigger] m.todos[i]).id
            != (#[trigger] m.todos[j]).id by {
            assert(m.todos[i].id == old_m.todos[i].id);
            assert(m.todos[j].id == old_m.todos[j].id);
        }
        assert forall|i: int| 0 <= i < m.todos.len() implies 0 < (#[trigger] m.todos[i]).id
            < m.next_todo_id by {
            assert(m.todos[i].id == old_m.todos[i].id);
        }
        assert forall|k: int| 0 <= k < m.subtasks.len() implies 0 < (#[trigger] m.subtasks[k]).id
            < m.next_subtask_id && has_todo(m.todos, m.subtasks[k].parent_id) by {
            let p = m.subtasks[k].parent_id;
            assert(old_m.subtasks[k] == m.subtasks[k]);
            let i = choose|i: int| 0 <= i < old_m.todos.len() && #[trigger] old_m.todos[i].id == p;
            assert(m.todos[i].id == old_m.todos[i].id);
        }
    }

    /// Deletes task `id` and every subtask it owns. An id not stored
    /// changes nothing.
    pub fn delete_todo(&mut self, id: i64)
        requires
            old(self).wf(),
        ensures
            final(self).wf(),
            final(self)@ == after_delete(old(self)@, id),
    {
        let ghost old_m = self@;
        let mut kept: Vec<Todo> = Vec::new();
        let mut i: usize = 0;
        proof {
            assert(old_m.todos.subrange(0, 0) =~= Seq::<TodoView>::empty());
            assert(old_m.subtasks.subrange(0, 0) =~= Seq::<SubTaskView>::empty());
        }
        while i < self.todos.len()
            invariant
                i <= self.todos@.len(),
                self@ == old_m,
                todo_views(kept@) == without_todo(old_m.todos.subrange(0, i as int), id),
            decreases self.todos@.len() - i,
        {
            proof {
                assert(old_m.todos.subrange(0, i + 1).drop_last() =~= old_m.todos.subrange(
                    0,
                    i as int,
                ));
            }
            if self.todos[i].id != id {
                let ghost before = todo_views(kept@);
                let t = self.todos[i].duplicate();
                kept.push(t);
                proof {
                    assert(todo_views(kept@) =~= before.push(old_m.todos[i as int]));
                }
            }
            i = i + 1;
        }
        proof {
            assert(old_m.todos.subrange(0, old_m.todos.len() as int) =~= old_m.todos);
        }
        let mut kept_subs: Vec<SubTask> = Vec::new();
        let mut k: usize = 0;
        while k < self.subtasks.len()
            invariant
                k <= self.subtasks@.len(),
                self@ == old_m,
                todo_views(kept@) == without_todo(old_m.todos, id),
                subtask_views(kept_subs@) == without_children(
                    old_m.subtasks.subrange(0, k as int),
                    id,
                ),
            decreases self.subtasks@.len() - k,
        {
            proof {
                assert(old_m.subtasks.subrange(0, k + 1).drop_last() =~= old_m.subtasks.subrange(
                    0,
                    k as int,
                ));
            }
            if self.subtasks[k].parent_id != id {
                let ghost before = subtask_views(kept_subs@);
                let s = self.subtasks[k].duplicate();
                kept_subs.push(s);
                proof {
                    assert(subtask_views(kept_subs@) =~= before.push(old_m.subtasks[k as int]));
                }
            }
            k = k + 1;
        }
        proof {
            assert(old_m.todos.subrange(0, old_m.todos.len() as int) =~= old_m.todos);
            assert(old_m.subtasks.subrange(0, old_m.subtasks.len() as int) =~= old_m.subtasks);
        }
        self.todos = kept;
        self.subtasks = kept_subs;
        proof {
            assert(self@ =~= after_delete(old_m, id));
            lemma_after_delete_wf(old_m, id);
        }
    }

    /// Gives each task named in `ids` its position in `ids` as sort order
    /// (the last position, if named twice), refreshing its update time.
    /// Tasks not named keep their order; ids not stored are passed over.
    pub fn reorder_todos(&mut self, ids: &Vec<i64>, now: &LocalDateTime)
        requires
            old(self).wf(),
        ensures
            final(self).wf(),
            final(self)@ == after_reorder(old(self)@, ids@, stamp_text(*now)),
    {
        let ghost old_m = self@;
        let stamp = stamp_of(now);
        let mut i: usize = 0;
        while i < self.todos.len()
            invariant
                i <= self.todos@.len(),
                self@.todos.len() == old_m.todos.len(),
                self@ == (StoreView { todos: self@.todos, ..old_m }),
                stamp@ == stamp_text(*now),
                forall|j: int| 0 <= j < i ==> #[trigger] self@.todos[j] == reordered(old_m.todos[j], ids@, stamp_text(*now)),
                forall|j: int| i <= j < self@.todos.len() ==> #[trigger] self@.todos[j] == old_m.todos[j],
            decreases self.todos@.len() - i,
        {
            if let Some(pos) = last_position_exec(ids, self.todos[i].id) {
                let ghost before = self@.todos;
                let mut t = self.todos[i].duplicate();
                t.sort_order = #[verifier::truncate] (pos as i32);
                t.updated_at = stamp.clone();
                let ghost tv = t@;
                self.todos.set(i, t);
                proof {
                    assert(self@.todos =~= before.update(i as int, tv));
                    assert(tv =~= reordered(old_m.todos[i as int], ids@, stamp_text(*now)));
                }
            } else {
                proof {
                    assert(self@.todos[i as int] == reordered(old_m.todos[i as int], ids@, stamp_text(*now)));
                }
            }
            i = i + 1;
        }
        proof {
            assert(self@.todos =~= after_reorder(old_m, ids@, stamp_text(*now)).todos);
            assert(self@ =~= after_reorder(old_m, ids@, stamp_text(*now)));
            self.lemma_same_ids_wf(old_m);
        }
    }
}

/// Task row `old_t` with the change `data` applied at `stamp`.
fn patch_row(old_t: &Todo, data: &UpdateTodoRequest, stamp: String) -> (r: Todo)
    ensures
        r@ == patched(old_t@, *data, stamp@),
{
    let rearm = data.clear_notify_at || data.notify_at.is_some();
    let r = Todo {
        id: old_t.id,
        title: match &data.title {
            Some(s) => s.clone(),
            None => old_t.title.clone(),
        },
        description: if data.description.is_some() {
            copy_opt_text(&data.description)
        } else {
            copy_opt_text(&old_t.description)
        },
        color: match &data.color {
            Some(s) => s.clone(),
            None => old_t.color.clone(),
        },
        quadrant: match data.quadrant {
            Some(q) => q,
            None => old_t.quadrant,
        },
        notify_at: if data.clear_notify_at {
            None
        } else if data.notify_at.is_some() {
            copy_opt_text(&data.notify_at)
        } else {
            copy_opt_text(&old_t.notify_at)
        },
        notify_before: match data.notify_before {
            Some(n) => n,
            None => old_t.notify_before,
        },
        notified: if rearm {
            false
        } else {
            old_t.notified
        },
        completed: match data.completed {
            Some(c) => c,
            None => old_t.completed,
        },
        sort_order: match data.sort_order {
            Some(o) => o,
            None => old_t.sort_order,
        },
        start_time: if data.clear_start_time {
            None
        } else if data.start_time.is_some() {
            copy_opt_text(&data.start_time)
        } else {
            copy_opt_text(&old_t.start_time)
        },
        end_time: if data.clear_end_time {
            None
        } else if data.end_time.is_some() {
            copy_opt_text(&data.end_time)
        } else {
            copy_opt_text(&old_t.end_time)
        },
        created_at: old_t.created_at.clone(),
        updated_at: stamp,
        subtasks: copy_subtasks(&old_t.subtasks),
    };
    proof {
        assert(r@ =~= patched(old_t@, *data, stamp@));
    }
    r
}

/// The last position of `id` in `ids`, or -1.
fn last_position_exec(ids: &Vec<i64>, id: i64) -> (r: Option<usize>)
    ensures
        match r {
            Some(p) => last_position(ids@, id) == p,
            None => last_position(ids@, id) == -1,
        },
{
    let mut k: usize = ids.len();
    proof {
        assert(ids@.subrange(0, ids@.len() as int) =~= ids@);
    }
    while k > 0
        invariant
            k <= ids@.len(),
            last_position(ids@, id) == last_position(ids@.subrange(0, k as int), id),
        decreases k,
    {
        proof {
            assert(ids@.subrange(0, k as int).drop_last() =~= ids@.subrange(0, k - 1));
        }
        if ids[k - 1] == id {
            return Some(k - 1);
        }
        k = k - 1;
    }
    proof {
        assert(ids@.subrange(0, 0).len() == 0);
    }
    None
}

/// No subtask row is owned by an id that no stored task has.
pub proof fn lemma_children_of_absent(subtasks: Seq<SubTaskView>, todos: Seq<TodoView>, pid: i64)
    requires
        forall|k: int| 0 <= k < subtasks.len() ==> has_todo(todos, (#[trigger] subtasks[k]).parent_id),
        !has_todo(todos, pid),
    ensures
        children(subtasks, pid).len() == 0,
    decreases subtasks.len(),
{
    if subtasks.len() > 0 {
        let s0 = subtasks.drop_last();
        assert forall|k: int| 0 <= k < s0.len() implies has_todo(todos, (#[trigger] s0[k]).parent_id) by {
            assert(s0[k] == subtasks[k]);
        }
        assert(has_todo(todos, subtasks[subtasks.len() - 1].parent_id));
        lemma_children_of_absent(s0, todos, pid);
    }
}

} // verus!
