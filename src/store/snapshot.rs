//! Export of the whole store as a versioned snapshot, and the destructive
//! import that replaces every task and subtask by those of a snapshot.
use vstd::prelude::*;
use crate::datetime::{LocalDateTime, iso_offset_of, iso_offset_text};
use crate::model::{
    ExportData, SubTask, SubTaskView, Todo, TodoView, copy_opt_text, subtask_views, todo_views,
};
use crate::order::{lemma_sort_subtasks_len, sort_subtasks};
use super::{StoreError, StoreView, TodoStore, children, has_todo, listed, store_wf};
use super::settings::{app_settings_of, saved};

verus! {

/// The tasks a snapshot carries: every stored task in storage order, each
/// with its subtasks in display order.
pub open spec fn exported_todos(m: StoreView) -> Seq<TodoView> {
    Seq::new(m.todos.len(), |i: int| listed(m, m.todos[i]))
}

/// A snapshot task stored under a new id; its subtasks are stored apart.
pub open spec fn imported_todo(t: TodoView, id: i64) -> TodoView {
    TodoView { id: id, subtasks: Seq::empty(), ..t }
}

/// The subtasks of snapshot task `t`, owned by `pid`, with ids from `first`.
pub open spec fn imported_subtasks(t: TodoView, pid: i64, first: int) -> Seq<SubTaskView> {
    Seq::new(
        t.subtasks.len(),
        |j: int| SubTaskView { id: (first + j) as i64, parent_id: pid, ..t.subtasks[j] },
    )
}

/// The number of subtasks the snapshot tasks carry.
pub open spec fn subtask_total(s: Seq<TodoView>) -> int
    decreases s.len(),
{
    if s.len() == 0 {
        0
    } else {
        subtask_total(s.drop_last()) + s.last().subtasks.len()
    }
}

/// The subtask rows an import stores: task by task, in snapshot order.
pub open spec fn import_subtasks(s: Seq<TodoView>, first_todo: int, first_sub: int) -> Seq<SubTaskView>
    decreases s.len(),
{
    if s.len() == 0 {
        Seq::empty()
    } else {
        let prev = import_subtasks(s.drop_last(), first_todo, first_sub);
        prev + imported_subtasks(s.last(), (first_todo + s.len() - 1) as i64, first_sub + prev.len())
    }
}

/// The new ids would not fit.
pub open spec fn import_exhausted(m: StoreView, s: Seq<TodoView>) -> bool {
    m.next_todo_id + s.len() >= i64::MAX || m.next_subtask_id + subtask_total(s) >= i64::MAX
}

/// The store after an import's tasks replace the stored ones: new ids in
/// snapshot order, subtasks rewritten to their new owners; settings and
/// screen layouts untouched.
pub open spec fn after_import_tasks(m: StoreView, s: Seq<TodoView>) -> StoreView {
    StoreView {
        todos: Seq::new(s.len(), |k: int| imported_todo(s[k], (m.next_todo_id + k) as i64)),
        subtasks: import_subtasks(s, m.next_todo_id as int, m.next_subtask_id as int),
        next_todo_id: (m.next_todo_id + s.len()) as i64,
        next_subtask_id: (m.next_subtask_id + subtask_total(s)) as i64,
        ..m
    }
}

/// Two tasks agree on everything but their ids and subtasks.
pub open spec fn same_task_record(a: TodoView, b: TodoView) -> bool {
    &&& a.title == b.title
    &&& a.description == b.description
    &&& a.color == b.color
    &&& a.quadrant == b.quadrant
    &&& a.notify_at == b.notify_at
    &&& a.notify_before == b.notify_before
    &&& a.notified == b.notified
    &&& a.completed == b.completed
    &&& a.sort_order == b.sort_order
    &&& a.start_time == b.start_time
    &&& a.end_time == b.end_time
    &&& a.created_at == b.created_at
    &&& a.updated_at == b.updated_at
}

/// Two subtasks agree on everything but their ids and owners.
pub open spec fn same_subtask_record(a: SubTaskView, b: SubTaskView) -> bool {
    &&& a.title == b.title
    &&& a.completed == b.completed
    &&& a.sort_order == b.sort_order
    &&& a.created_at == b.created_at
    &&& a.updated_at == b.updated_at
}

proof fn lemma_import_subtasks_shape(s: Seq<TodoView>, ft: int, fs: int)
    ensures
        import_subtasks(s, ft, fs).len() == subtask_total(s),
        forall|j: int|
            0 <= j < import_subtasks(s, ft, fs).len() ==> (#[trigger] import_subtasks(
                s,
                ft,
                fs,
            )[j]).id == fs + j || fs + j > i64::MAX || fs + j < i64::MIN,
        forall|j: int|
            0 <= j < import_subtasks(s, ft, fs).len() ==> ft <= (#[trigger] import_subtasks(
                s,
                ft,
                fs,
            )[j]).parent_id < ft + s.len() || ft + s.len() > i64::MAX + 1 || ft < i64::MIN,
    decreases s.len(),
{
    if s.len() > 0 {
        let prev = import_subtasks(s.drop_last(), ft, fs);
        let blk = imported_subtasks(s.last(), (ft + s.len() - 1) as i64, fs + prev.len());
        let all = import_subtasks(s, ft, fs);
        lemma_import_subtasks_shape(s.drop_last(), ft, fs);
        assert forall|j: int| 0 <= j < all.len() implies (#[trigger] all[j]).id == fs + j || fs + j
            > i64::MAX || fs + j < i64::MIN by {
            if j < prev.len() {
                assert(all[j] == prev[j]);
            } else {
                assert(all[j] == blk[j - prev.len()]);
            }
        }
        assert forall|j: int| 0 <= j < all.len() implies ft <= (#[trigger] all[j]).parent_id < ft
            + s.len() || ft + s.len() > i64::MAX + 1 || ft < i64::MIN by {
            if j < prev.len() {
                assert(all[j] == prev[j]);
            } else {
                assert(all[j] == blk[j - prev.len()]);
            }
        }
    }
}

proof fn lemma_subtask_total_prefix(s: Seq<TodoView>, k: int)
    requires
        0 <= k <= s.len(),
    ensures
        0 <= subtask_total(s.subrange(0, k)) <= subtask_total(s),
    decreases s.len(),
{
    if s.len() > 0 {
        if k == s.len() {
            assert(s.subrange(0, k) =~= s);
            lemma_subtask_total_prefix(s.drop_last(), k - 1);
        } else {
            assert(s.drop_last().subrange(0, k) =~= s.subrange(0, k));
            lemma_subtask_total_prefix(s.drop_last(), k);
        }
    }
}

proof fn lemma_children_concat(a: Seq<SubTaskView>, b: Seq<SubTaskView>, pid: i64)
    ensures
        children(a + b, pid) == children(a, pid) + children(b, pid),
    decreases b.len(),
{
    if b.len() == 0 {
        assert(a + b =~= a);
        assert(children(a, pid) + children(b, pid) =~= children(a, pid));
    } else {
        assert((a + b).drop_last() =~= a + b.drop_last());
        lemma_children_concat(a, b.drop_last(), pid);
        if b.last().parent_id == pid {
            assert(children(a, pid) + children(b, pid) =~= (children(a, pid) + children(
                b.drop_last(),
                pid,
            )).push(b.last()));
        }
    }
}

proof fn lemma_children_none(s: Seq<SubTaskView>, pid: i64)
    requires
        forall|j: int| 0 <= j < s.len() ==> (#[trigger] s[j]).parent_id != pid,
    ensures
        children(s, pid) == Seq::<SubTaskView>::empty(),
    decreases s.len(),
{
    if s.len() > 0 {
        assert forall|j: int| 0 <= j < s.drop_last().len() implies (
        #[trigger] s.drop_last()[j]).parent_id != pid by {
            assert(s.drop_last()[j] == s[j]);
        }
        assert(s[s.len() - 1].parent_id != pid);
        lemma_children_none(s.drop_last(), pid);
    } else {
        assert(s =~= Seq::<SubTaskView>::empty());
    }
}

proof fn lemma_children_all(s: Seq<SubTaskView>, pid: i64)
    requires
        forall|j: int| 0 <= j < s.len() ==> (#[trigger] s[j]).parent_id == pid,
    ensures
        children(s, pid) == s,
    decreases s.len(),
{
    if s.len() > 0 {
        assert forall|j: int| 0 <= j < s.drop_last().len() implies (
        #[trigger] s.drop_last()[j]).parent_id == pid by {
            assert(s.drop_last()[j] == s[j]);
        }
        assert(s[s.len() - 1].parent_id == pid);
        lemma_children_all(s.drop_last(), pid);
        assert(s.drop_last().push(s.last()) =~= s);
    }
}

/// The subtasks an import stores for snapshot task `k` are exactly those
/// that task carried, in order.
proof fn lemma_import_children(s: Seq<TodoView>, ft: int, fs: int, k: int)
    requires
        0 <= k < s.len(),
        0 < ft,
        ft + s.len() < i64::MAX,
    ensures
        children(import_subtasks(s, ft, fs), (ft + k) as i64) == imported_subtasks(
            s[k],
            (ft + k) as i64,
            fs + import_subtasks(s.subrange(0, k), ft, fs).len(),
        ),
    decreases s.len(),
{
    let n = s.len();
    let prev = import_subtasks(s.drop_last(), ft, fs);
    let blk = imported_subtasks(s.last(), (ft + n - 1) as i64, fs + prev.len());
    lemma_children_concat(prev, blk, (ft + k) as i64);
    lemma_import_subtasks_shape(s.drop_last(), ft, fs);
    if k == n - 1 {
        assert forall|j: int| 0 <= j < prev.len() implies (#[trigger] prev[j]).parent_id != (ft
            + k) as i64 by {}
        lemma_children_none(prev, (ft + k) as i64);
        lemma_children_all(blk, (ft + k) as i64);
        assert(s.subrange(0, k) =~= s.drop_last());
        assert(children(prev, (ft + k) as i64) + blk =~= blk);
    } else {
        assert forall|j: int| 0 <= j < blk.len() implies (#[trigger] blk[j]).parent_id != (ft
            + k) as i64 by {}
        lemma_children_none(blk, (ft + k) as i64);
        lemma_import_children(s.drop_last(), ft, fs, k);
        assert(s.drop_last().subrange(0, k) =~= s.subrange(0, k));
        assert(s.drop_last()[k] == s[k]);
        assert(children(prev, (ft + k) as i64) + Seq::<SubTaskView>::empty() =~= children(
            prev,
            (ft + k) as i64,
        ));
    }
}

/// The number of subtasks owned by the tasks in `todos`.
pub open spec fn owned_count(todos: Seq<TodoView>, subtasks: Seq<SubTaskView>) -> int
    decreases todos.len(),
{
    if todos.len() == 0 {
        0
    } else {
        owned_count(todos.drop_last(), subtasks) + children(subtasks, todos.last().id).len()
    }
}

/// How many of `todos` have id `id`.
pub open spec fn id_count(todos: Seq<TodoView>, id: i64) -> int
    decreases todos.len(),
{
    if todos.len() == 0 {
        0
    } else {
        id_count(todos.drop_last(), id) + if todos.last().id == id { 1int } else { 0int }
    }
}

proof fn lemma_owned_count_step(todos: Seq<TodoView>, subtasks: Seq<SubTaskView>)
    requires
        subtasks.len() > 0,
    ensures
        owned_count(todos, subtasks) == owned_count(todos, subtasks.drop_last()) + id_count(
            todos,
            subtasks.last().parent_id,
        ),
    decreases todos.len(),
{
    if todos.len() > 0 {
        lemma_owned_count_step(todos.drop_last(), subtasks);
    }
}

proof fn lemma_owned_count_none(todos: Seq<TodoView>, subtasks: Seq<SubTaskView>)
    requires
        subtasks.len() == 0,
    ensures
        owned_count(todos, subtasks) == 0,
    decreases todos.len(),
{
    if todos.len() > 0 {
        lemma_owned_count_none(todos.drop_last(), subtasks);
    }
}

proof fn lemma_id_count_absent(todos: Seq<TodoView>, id: i64)
    requires
        forall|i: int| 0 <= i < todos.len() ==> (#[trigger] todos[i]).id != id,
    ensures
        id_count(todos, id) == 0,
    decreases todos.len(),
{
    if todos.len() > 0 {
        let d = todos.drop_last();
        assert forall|i: int| 0 <= i < d.len() implies (#[trigger] d[i]).id != id by {
            assert(d[i] == todos[i]);
        }
        assert(todos[todos.len() - 1].id != id);
        lemma_id_count_absent(d, id);
    }
}

proof fn lemma_id_count_one(todos: Seq<TodoView>, id: i64)
    requires
        forall|i: int, j: int|
            0 <= i < j < todos.len() ==> (#[trigger] todos[i]).id != (#[trigger] todos[j]).id,
        has_todo(todos, id),
    ensures
        id_count(todos, id) == 1,
    decreases todos.len(),
{
    let d = todos.drop_last();
    let last = todos.len() - 1;
    assert forall|i: int, j: int| 0 <= i < j < d.len() implies (#[trigger] d[i]).id != (
    #[trigger] d[j]).id by {
        assert(d[i] == todos[i] && d[j] == todos[j]);
    }
    if todos[last].id == id {
        assert forall|i: int| 0 <= i < d.len() implies (#[trigger] d[i]).id != id by {
            assert(d[i] == todos[i]);
        }
        lemma_id_count_absent(d, id);
    } else {
        let i = choose|i: int| 0 <= i < todos.len() && #[trigger] todos[i].id == id;
        assert(d[i] == todos[i]);
        lemma_id_count_one(d, id);
    }
}

/// With distinct task ids and every subtask owned by one of them, the tasks
/// own all the subtasks between them.
proof fn lemma_owned_count_total(todos: Seq<TodoView>, subtasks: Seq<SubTaskView>)
    requires
        forall|i: int, j: int|
            0 <= i < j < todos.len() ==> (#[trigger] todos[i]).id != (#[trigger] todos[j]).id,
        forall|k: int| 0 <= k < subtasks.len() ==> has_todo(todos, (#[trigger] subtasks[k]).parent_id),
    ensures
        owned_count(todos, subtasks) == subtasks.len(),
    decreases subtasks.len(),
{
    if subtasks.len() == 0 {
        lemma_owned_count_none(todos, subtasks);
    } else {
        let d = subtasks.drop_last();
        assert forall|k: int| 0 <= k < d.len() implies has_todo(todos, (#[trigger] d[k]).parent_id) by {
            assert(d[k] == subtasks[k]);
        }
        assert(has_todo(todos, subtasks[subtasks.len() - 1].parent_id));
        lemma_owned_count_total(todos, d);
        lemma_owned_count_step(todos, subtasks);
        lemma_id_count_one(todos, subtasks.last().parent_id);
    }
}

proof fn lemma_exported_total(m: StoreView, k: int)
    requires
        0 <= k <= m.todos.len(),
    ensures
        subtask_total(Seq::new(k as nat, |i: int| listed(m, m.todos[i]))) == owned_count(
            m.todos.subrange(0, k),
            m.subtasks,
        ),
    decreases k,
{
    if k > 0 {
        lemma_exported_total(m, k - 1);
        let e = Seq::new(k as nat, |i: int| listed(m, m.todos[i]));
        assert(e.drop_last() =~= Seq::new((k - 1) as nat, |i: int| listed(m, m.todos[i])));
        assert(m.todos.subrange(0, k).drop_last() =~= m.todos.subrange(0, k - 1));
        lemma_sort_subtasks_len(children(m.subtasks, m.todos[k - 1].id));
    }
}

/// Export then import: the store holds as many tasks and as many subtasks
/// as were exported. The tasks come in the same order, each agreeing with
/// its original on every field but the id, and owning as many subtasks as
/// the original did, which agree with the original's subtasks in display
/// order on every field but id and owner.
pub proof fn lemma_export_import_round_trip(m: StoreView, m2: StoreView)
    requires
        store_wf(m),
        store_wf(m2),
        !import_exhausted(m2, exported_todos(m)),
    ensures
        after_import_tasks(m2, exported_todos(m)).todos.len() == m.todos.len(),
        after_import_tasks(m2, exported_todos(m)).subtasks.len() == m.subtasks.len(),
        forall|k: int|
            0 <= k < m.todos.len() ==> same_task_record(
                #[trigger] after_import_tasks(m2, exported_todos(m)).todos[k],
                m.todos[k],
            ),
        forall|k: int|
            0 <= k < m.todos.len() ==> (#[trigger] children(
                after_import_tasks(m2, exported_todos(m)).subtasks,
                after_import_tasks(m2, exported_todos(m)).todos[k].id,
            )).len() == children(m.subtasks, m.todos[k].id).len(),
        forall|k: int, j: int|
            0 <= k < m.todos.len() && 0 <= j < children(m.subtasks, m.todos[k].id).len()
                ==> same_subtask_record(
                #[trigger] children(
                    after_import_tasks(m2, exported_todos(m)).subtasks,
                    after_import_tasks(m2, exported_todos(m)).todos[k].id,
                )[j],
                sort_subtasks(children(m.subtasks, m.todos[k].id))[j],
            ),
{
    let s = exported_todos(m);
    let a = after_import_tasks(m2, s);
    let ft = m2.next_todo_id as int;
    let fs = m2.next_subtask_id as int;
    lemma_import_subtasks_shape(s, ft, fs);
    lemma_exported_total(m, m.todos.len() as int);
    assert(m.todos.subrange(0, m.todos.len() as int) =~= m.todos);
    assert(s =~= Seq::new(m.todos.len(), |i: int| listed(m, m.todos[i])));
    lemma_owned_count_total(m.todos, m.subtasks);
    assert forall|k: int| 0 <= k < m.todos.len() implies (#[trigger] children(
        a.subtasks,
        a.todos[k].id,
    )).len() == children(m.subtasks, m.todos[k].id).len() && forall|j: int|
        0 <= j < children(m.subtasks, m.todos[k].id).len() ==> same_subtask_record(
            #[trigger] children(a.subtasks, a.todos[k].id)[j],
            sort_subtasks(children(m.subtasks, m.todos[k].id))[j],
        ) by {
        lemma_import_children(s, ft, fs, k);
        lemma_sort_subtasks_len(children(m.subtasks, m.todos[k].id));
        assert(a.todos[k].id == (ft + k) as i64);
    }
}

impl TodoStore {
    /// The snapshot of the store: version `1.0`, the export time as
    /// ISO-8601 with the zone offset, every task with its subtasks, and the
    /// window and theme preferences.
    pub fn export_data(&self, now: &LocalDateTime, offset_secs: i32) -> (r: ExportData)
        requires
            self.wf(),
            -86400 < offset_secs < 86400,
        ensures
            r.version@ == "1.0"@,
            r.exported_at@ == iso_offset_text(*now, offset_secs as int),
            todo_views(r.todos@) == exported_todos(self@),
            app_settings_of(self@, r.settings),
    {
        let mut todos: Vec<Todo> = Vec::new();
        let mut i: usize = 0;
        while i < self.todos.len()
            invariant
                i <= self@.todos.len(),
                self@.todos.len() == self.todos@.len(),
                todo_views(todos@) =~= Seq::new(i as nat, |j: int| listed(self@, self@.todos[j])),
            decreases self@.todos.len() - i,
        {
            let t = self.listed_at(i);
            let ghost before = todo_views(todos@);
            todos.push(t);
            proof {
                assert(todo_views(todos@) =~= before.push(t@));
            }
            i = i + 1;
        }
        ExportData {
            version: String::from_str("1.0"),
            exported_at: iso_offset_of(now, offset_secs),
            todos: todos,
            settings: self.get_settings(),
        }
    }

    /// Replaces every task and subtask by those of `todos`, under new ids.
    fn replace_tasks(&mut self, todos: &Vec<Todo>) -> (r: Result<(), StoreError>)
        requires
            old(self).wf(),
        ensures
            final(self).wf(),
            import_exhausted(old(self)@, todo_views(todos@)) ==> r == Err::<(), StoreError>(
                StoreError::Exhausted,
            ) && final(self)@ == old(self)@,
            !import_exhausted(old(self)@, todo_views(todos@)) ==> r is Ok && final(self)@
                == after_import_tasks(old(self)@, todo_views(todos@)),
    {
        let ghost s = todo_views(todos@);
        let ghost old_m = self@;
        let n = todos.len();
        if n as u64 >= (i64::MAX - self.next_todo_id) as u64 {
            return Err(StoreError::Exhausted);
        }
        let room: i64 = i64::MAX - self.next_subtask_id;
        let mut total: i64 = 0;
        let mut k: usize = 0;
        while k < n
            invariant
                k <= n,
                n == todos@.len(),
                s == todo_views(todos@),
                0 <= total <= room,
                total == subtask_total(s.subrange(0, k as int)),
                self@ == old_m,
                old_m == old(self)@,
                store_wf(old_m),
                room == i64::MAX - old_m.next_subtask_id,
                s.len() == n,
            decreases n - k,
        {
            proof {
                assert(s.subrange(0, k + 1).drop_last() =~= s.subrange(0, k as int));
            }
            let c = todos[k].subtasks.len();
            proof {
                assert(s[k as int] == todos@[k as int]@);
                assert(s[k as int].subtasks.len() == c);
                assert(s.subrange(0, k + 1).last() == s[k as int]);
            }
            if c as u64 > (room - total) as u64 {
                proof {
                    lemma_subtask_total_prefix(s, k + 1);
                }
                return Err(StoreError::Exhausted);
            }
            total = total + c as i64;
            k = k + 1;
        }
        if total == room {
            proof {
                assert(s.subrange(0, n as int) =~= s);
            }
            return Err(StoreError::Exhausted);
        }
        proof {
            assert(s.subrange(0, n as int) =~= s);
            assert(!import_exhausted(old_m, s));
        }
        let ft = self.next_todo_id;
        let fs = self.next_subtask_id;
        let mut new_todos: Vec<Todo> = Vec::new();
        let mut new_subs: Vec<SubTask> = Vec::new();
        let mut next_sub: i64 = fs;
        let mut k: usize = 0;
        proof {
            assert(s.subrange(0, 0) =~= Seq::<TodoView>::empty());
        }
        while k < n
            invariant
                k <= n,
                n == todos@.len(),
                s == todo_views(todos@),
                ft == old_m.next_todo_id,
                fs == old_m.next_subtask_id,
                store_wf(old_m),
                0 < ft,
                s.len() == n,
                !import_exhausted(old_m, s),
                ft + n < i64::MAX,
                todo_views(new_todos@) =~= Seq::new(
                    k as nat,
                    |q: int| imported_todo(s[q], (ft + q) as i64),
                ),
                subtask_views(new_subs@) == import_subtasks(s.subrange(0, k as int), ft as int, fs as int),
                next_sub == fs + subtask_total(s.subrange(0, k as int)),
            decreases n - k,
        {
            let t = &todos[k];
            proof {
                assert(t@ == s[k as int]);
            }
            let id: i64 = ft + k as i64;
            let ghost prev = subtask_views(new_subs@);
            proof {
                lemma_import_subtasks_shape(s.subrange(0, k as int), ft as int, fs as int);
                lemma_subtask_total_prefix(s, k + 1);
                assert(s.subrange(0, k + 1).drop_last() =~= s.subrange(0, k as int));
                assert(s.subrange(0, k + 1).last() == s[k as int]);
            }
            let mut j: usize = 0;
            while j < t.subtasks.len()
                invariant
                    j <= t.subtasks@.len(),
                    t@ == s[k as int],
                    k < n,
                    s.len() == n,
                    next_sub == fs + prev.len() + j,
                    fs + prev.len() + t.subtasks@.len() <= fs + subtask_total(s),
                    !import_exhausted(old_m, s),
                    fs == old_m.next_subtask_id,
                    subtask_views(new_subs@) =~= prev + imported_subtasks(
                        s[k as int],
                        id,
                        fs + prev.len(),
                    ).subrange(0, j as int),
                decreases t.subtasks@.len() - j,
            {
                let st = &t.subtasks[j];
                let row = SubTask {
                    id: next_sub,
                    parent_id: id,
                    title: st.title.clone(),
                    completed: st.completed,
                    sort_order: st.sort_order,
                    created_at: st.created_at.clone(),
                    updated_at: st.updated_at.clone(),
                };
                let ghost before = subtask_views(new_subs@);
                let ghost blk = imported_subtasks(s[k as int], id, fs + prev.len());
                proof {
                    assert(t@.subtasks[j as int] == t.subtasks@[j as int]@);
                    assert(blk[j as int] == row@);
                    assert(blk.subrange(0, j + 1) =~= blk.subrange(0, j as int).push(blk[j as int]));
                }
                let ghost rv = row@;
                new_subs.push(row);
                proof {
                    assert(subtask_views(new_subs@) =~= before.push(rv));
                    assert(subtask_views(new_subs@) =~= prev + imported_subtasks(
                        s[k as int],
                        id,
                        fs + prev.len(),
                    ).subrange(0, j + 1));
                }
                next_sub = next_sub + 1;
                j = j + 1;
            }
            let row = Todo {
                id: id,
                title: t.title.clone(),
                description: copy_opt_text(&t.description),
                color: t.color.clone(),
                quadrant: t.quadrant,
                notify_at: copy_opt_text(&t.notify_at),
                notify_before: t.notify_before,
                notified: t.notified,
                completed: t.completed,
                sort_order: t.sort_order,
                start_time: copy_opt_text(&t.start_time),
                end_time: copy_opt_text(&t.end_time),
                created_at: t.created_at.clone(),
                updated_at: t.updated_at.clone(),
                subtasks: Vec::new(),
            };
            let ghost rv = row@;
            let ghost before_todos = todo_views(new_todos@);
            new_todos.push(row);
            proof {
                assert(rv.subtasks =~= Seq::<SubTaskView>::empty());
                assert(rv == imported_todo(s[k as int], (ft + k) as i64));
                assert(todo_views(new_todos@) =~= before_todos.push(rv));
                assert(imported_subtasks(s[k as int], id, fs + prev.len()).subrange(
                    0,
                    t.subtasks@.len() as int,
                ) =~= imported_subtasks(s[k as int], id, fs + prev.len()));
                assert(subtask_views(new_subs@) == import_subtasks(
                    s.subrange(0, k + 1),
                    ft as int,
                    fs as int,
                ));
            }
            k = k + 1;
        }
        self.todos = new_todos;
        self.subtasks = new_subs;
        self.next_todo_id = ft + n as i64;
        self.next_subtask_id = next_sub;
        proof {
            assert(s.subrange(0, n as int) =~= s);
            assert(self@ =~= after_import_tasks(old_m, s));
            lemma_after_import_wf(old_m, s);
        }
        Ok(())
    }

    /// Replaces every task and subtask by those of the snapshot, under new
    /// ids (each subtask rewritten to its task's new id), and saves the
    /// snapshot's preferences. Nothing changes when the new ids would not fit.
    pub fn import_data(&mut self, data: &ExportData) -> (r: Result<(), StoreError>)
        requires
            old(self).wf(),
        ensures
            final(self).wf(),
            import_exhausted(old(self)@, todo_views(data.todos@)) ==> r == Err::<(), StoreError>(
                StoreError::Exhausted,
            ) && final(self)@ == old(self)@,
            !import_exhausted(old(self)@, todo_views(data.todos@)) ==> r is Ok && saved(
                after_import_tasks(old(self)@, todo_views(data.todos@)),
                final(self)@,
                data.settings,
            ),
    {
        match self.replace_tasks(&data.todos) {
            Ok(()) => {},
            Err(e) => {
                return Err(e);
            },
        }
        self.save_settings(&data.settings);
        Ok(())
    }
}

proof fn lemma_after_import_wf(m: StoreView, s: Seq<TodoView>)
    requires
        store_wf(m),
        !import_exhausted(m, s),
    ensures
        store_wf(after_import_tasks(m, s)),
{
    let a = after_import_tasks(m, s);
    let ft = m.next_todo_id as int;
    let fs = m.next_subtask_id as int;
    lemma_import_subtasks_shape(s, ft, fs);
    assert forall|k: int| 0 <= k < a.subtasks.len() implies 0 < (#[trigger] a.subtasks[k]).id
        < a.next_subtask_id && has_todo(a.todos, a.subtasks[k].parent_id) by {
        let p = a.subtasks[k].parent_id;
        let i = p - ft;
        assert(a.todos[i].id == p);
    }
    assert forall|k: int, l: int| 0 <= k < l < a.subtasks.len() implies (
    #[trigger] a.subtasks[k]).id != (#[trigger] a.subtasks[l]).id by {}
}

} // verus!
