//! Display order: tasks by (completed, sort order, newest first), subtasks
//! by sort order. Both sorts are stable insertion sorts, so ties keep the
//! order in which the records are stored.
use vstd::prelude::*;
use crate::model::{SubTask, SubTaskView, Todo, TodoView, subtask_views, todo_views};
use crate::text::{text_le, text_less_eq};

verus! {

/// `a` may come before `b` among subtasks.
pub open spec fn subtask_le(a: SubTaskView, b: SubTaskView) -> bool {
    a.sort_order <= b.sort_order
}

/// `a` may come before `b` among tasks: open before done, then by sort
/// order, then the later creation time first.
pub open spec fn todo_le(a: TodoView, b: TodoView) -> bool {
    if a.completed != b.completed {
        !a.completed
    } else if a.sort_order != b.sort_order {
        a.sort_order < b.sort_order
    } else {
        text_le(b.created_at, a.created_at)
    }
}

/// `x` placed into `s` after every element that may come before it.
pub open spec fn insert_subtask(x: SubTaskView, s: Seq<SubTaskView>) -> Seq<SubTaskView>
    decreases s.len(),
{
    if s.len() == 0 {
        seq![x]
    } else if subtask_le(s.last(), x) {
        s.push(x)
    } else {
        insert_subtask(x, s.drop_last()).push(s.last())
    }
}

/// Subtasks in display order.
pub open spec fn sort_subtasks(s: Seq<SubTaskView>) -> Seq<SubTaskView>
    decreases s.len(),
{
    if s.len() == 0 {
        s
    } else {
        insert_subtask(s.last(), sort_subtasks(s.drop_last()))
    }
}

pub open spec fn insert_todo(x: TodoView, s: Seq<TodoView>) -> Seq<TodoView>
    decreases s.len(),
{
    if s.len() == 0 {
        seq![x]
    } else if todo_le(s.last(), x) {
        s.push(x)
    } else {
        insert_todo(x, s.drop_last()).push(s.last())
    }
}

/// Tasks in display order.
pub open spec fn sort_todos(s: Seq<TodoView>) -> Seq<TodoView>
    decreases s.len(),
{
    if s.len() == 0 {
        s
    } else {
        insert_todo(s.last(), sort_todos(s.drop_last()))
    }
}

fn subtask_less_eq(a: &SubTask, b: &SubTask) -> (r: bool)
    ensures
        r == subtask_le(a@, b@),
{
    a.sort_order <= b.sort_order
}

fn todo_less_eq(a: &Todo, b: &Todo) -> (r: bool)
    ensures
        r == todo_le(a@, b@),
{
    if a.completed != b.completed {
        !a.completed
    } else if a.sort_order != b.sort_order {
        a.sort_order < b.sort_order
    } else {
        text_less_eq(b.created_at.as_str(), a.created_at.as_str())
    }
}

fn insert_subtask_exec(x: SubTask, v: Vec<SubTask>) -> (r: Vec<SubTask>)
    ensures
        subtask_views(r@) == insert_subtask(x@, subtask_views(v@)),
    decreases v@.len(),
{
    let ghost vv = subtask_views(v@);
    let mut v = v;
    if v.len() == 0 {
        let r = vec![x];
        proof {
            assert(subtask_views(r@) =~= seq![x@]);
        }
        return r;
    }
    let last = v.pop().unwrap();
    proof {
        assert(subtask_views(v@) =~= vv.drop_last());
        assert(last@ == vv.last());
    }
    if subtask_less_eq(&last, &x) {
        v.push(last);
        v.push(x);
        proof {
            assert(subtask_views(v@) =~= vv.push(x@));
        }
        v
    } else {
        let mut r = insert_subtask_exec(x, v);
        let ghost rr = subtask_views(r@);
        r.push(last);
        proof {
            assert(subtask_views(r@) =~= rr.push(last@));
        }
        r
    }
}

/// Sorts subtasks into display order.
pub fn sort_subtasks_exec(v: Vec<SubTask>) -> (r: Vec<SubTask>)
    ensures
        subtask_views(r@) == sort_subtasks(subtask_views(v@)),
    decreases v@.len(),
{
    let ghost vv = subtask_views(v@);
    let mut v = v;
    if v.len() == 0 {
        proof {
            assert(vv.len() == 0);
        }
        return v;
    }
    let last = v.pop().unwrap();
    proof {
        assert(subtask_views(v@) =~= vv.drop_last());
    }
    let sorted = sort_subtasks_exec(v);
    insert_subtask_exec(last, sorted)
}

fn insert_todo_exec(x: Todo, v: Vec<Todo>) -> (r: Vec<Todo>)
    ensures
        todo_views(r@) == insert_todo(x@, todo_views(v@)),
    decreases v@.len(),
{
    let ghost vv = todo_views(v@);
    let mut v = v;
    if v.len() == 0 {
        let ghost xv = x@;
        let r = vec![x];
        proof {
            assert(todo_views(r@) =~= seq![xv]);
        }
        return r;
    }
    let last = v.pop().unwrap();
    proof {
        assert(todo_views(v@) =~= vv.drop_last());
        assert(last@ == vv.last());
    }
    if todo_less_eq(&last, &x) {
        v.push(last);
        v.push(x);
        proof {
            assert(todo_views(v@) =~= vv.push(x@));
        }
        v
    } else {
        let mut r = insert_todo_exec(x, v);
        let ghost rr = todo_views(r@);
        let ghost lv = last@;
        r.push(last);
        proof {
            assert(todo_views(r@) =~= rr.push(lv));
        }
        r
    }
}

/// Sorts tasks into display order.
pub fn sort_todos_exec(v: Vec<Todo>) -> (r: Vec<Todo>)
    ensures
        todo_views(r@) == sort_todos(todo_views(v@)),
    decreases v@.len(),
{
    let ghost vv = todo_views(v@);
    let mut v = v;
    if v.len() == 0 {
        proof {
            assert(vv.len() == 0);
        }
        return v;
    }
    let last = v.pop().unwrap();
    proof {
        assert(todo_views(v@) =~= vv.drop_last());
    }
    let sorted = sort_todos_exec(v);
    insert_todo_exec(last, sorted)
}

/// A sequence of tasks in display order.
pub open spec fn todos_sorted(s: Seq<TodoView>) -> bool {
    forall|i: int, j: int| 0 <= i < j < s.len() ==> todo_le(#[trigger] s[i], #[trigger] s[j])
}

/// A sequence of subtasks in display order.
pub open spec fn subtasks_sorted(s: Seq<SubTaskView>) -> bool {
    forall|i: int, j: int| 0 <= i < j < s.len() ==> subtask_le(#[trigger] s[i], #[trigger] s[j])
}

proof fn lemma_text_le_total(a: Seq<char>, b: Seq<char>)
    ensures
        text_le(a, b) || text_le(b, a),
    decreases a.len(),
{
    if a.len() > 0 && b.len() > 0 && a[0] == b[0] {
        lemma_text_le_total(a.drop_first(), b.drop_first());
    }
}

proof fn lemma_text_le_trans(a: Seq<char>, b: Seq<char>, c: Seq<char>)
    requires
        text_le(a, b),
        text_le(b, c),
    ensures
        text_le(a, c),
    decreases a.len(),
{
    if a.len() > 0 && b.len() > 0 && c.len() > 0 && a[0] == b[0] && b[0] == c[0] {
        lemma_text_le_trans(a.drop_first(), b.drop_first(), c.drop_first());
    }
}

proof fn lemma_todo_le_total(a: TodoView, b: TodoView)
    ensures
        todo_le(a, b) || todo_le(b, a),
{
    lemma_text_le_total(a.created_at, b.created_at);
}

proof fn lemma_todo_le_trans(a: TodoView, b: TodoView, c: TodoView)
    requires
        todo_le(a, b),
        todo_le(b, c),
    ensures
        todo_le(a, c),
{
    if a.completed == b.completed && b.completed == c.completed && a.sort_order == b.sort_order
        && b.sort_order == c.sort_order {
        lemma_text_le_trans(c.created_at, b.created_at, a.created_at);
    }
}

/// Every element of `insert_todo(x, s)` is `x` or an element of `s`.
proof fn lemma_insert_todo_bounded(x: TodoView, s: Seq<TodoView>, b: TodoView)
    requires
        todo_le(x, b),
        forall|i: int| 0 <= i < s.len() ==> todo_le(#[trigger] s[i], b),
    ensures
        forall|i: int| 0 <= i < insert_todo(x, s).len() ==> todo_le(#[trigger] insert_todo(x, s)[i], b),
    decreases s.len(),
{
    if s.len() > 0 && !todo_le(s.last(), x) {
        let d = s.drop_last();
        assert forall|i: int| 0 <= i < d.len() implies todo_le(#[trigger] d[i], b) by {
            assert(d[i] == s[i]);
        }
        lemma_insert_todo_bounded(x, d, b);
        let r = insert_todo(x, s);
        let r0 = insert_todo(x, d);
        assert forall|i: int| 0 <= i < r.len() implies todo_le(#[trigger] r[i], b) by {
            if i < r0.len() {
                assert(r[i] == r0[i]);
            } else {
                assert(r[i] == s[s.len() - 1]);
            }
        }
    }
}

proof fn lemma_insert_todo_sorted(x: TodoView, s: Seq<TodoView>)
    requires
        todos_sorted(s),
    ensures
        todos_sorted(insert_todo(x, s)),
        insert_todo(x, s).to_multiset() == s.to_multiset().insert(x),
    decreases s.len(),
{
    broadcast use vstd::seq_lib::group_to_multiset_ensures;
    let r = insert_todo(x, s);
    if s.len() == 0 {
        assert(r =~= s.push(x));
    } else if todo_le(s.last(), x) {
        assert forall|i: int, j: int| 0 <= i < j < r.len() implies todo_le(#[trigger] r[i], #[trigger] r[j]) by {
            if j == r.len() - 1 && i < s.len() - 1 {
                lemma_todo_le_trans(s[i], s.last(), x);
            }
        }
    } else {
        let d = s.drop_last();
        let l = s.last();
        lemma_todo_le_total(l, x);
        assert forall|i: int, j: int| 0 <= i < j < d.len() implies todo_le(#[trigger] d[i], #[trigger] d[j]) by {
            assert(d[i] == s[i] && d[j] == s[j]);
        }
        lemma_insert_todo_sorted(x, d);
        assert forall|i: int| 0 <= i < d.len() implies todo_le(#[trigger] d[i], l) by {
            assert(d[i] == s[i]);
        }
        lemma_insert_todo_bounded(x, d, l);
        let r0 = insert_todo(x, d);
        assert forall|i: int, j: int| 0 <= i < j < r.len() implies todo_le(#[trigger] r[i], #[trigger] r[j]) by {
            assert(r[i] == r0[i]);
            if j < r0.len() {
                assert(r[j] == r0[j]);
            }
        }
        assert(s =~= d.push(l));
        assert(d.push(l).to_multiset() == d.to_multiset().insert(l));
    }
}

/// The display order of tasks is sorted and holds the same tasks.
pub proof fn lemma_sort_todos_sorted(s: Seq<TodoView>)
    ensures
        todos_sorted(sort_todos(s)),
        sort_todos(s).to_multiset() == s.to_multiset(),
    decreases s.len(),
{
    broadcast use vstd::seq_lib::group_to_multiset_ensures;
    if s.len() > 0 {
        lemma_sort_todos_sorted(s.drop_last());
        lemma_insert_todo_sorted(s.last(), sort_todos(s.drop_last()));
        assert(s =~= s.drop_last().push(s.last()));
    }
}

proof fn lemma_insert_subtask_bounded(x: SubTaskView, s: Seq<SubTaskView>, b: SubTaskView)
    requires
        subtask_le(x, b),
        forall|i: int| 0 <= i < s.len() ==> subtask_le(#[trigger] s[i], b),
    ensures
        forall|i: int|
            0 <= i < insert_subtask(x, s).len() ==> subtask_le(#[trigger] insert_subtask(x, s)[i], b),
    decreases s.len(),
{
    if s.len() > 0 && !subtask_le(s.last(), x) {
        let d = s.drop_last();
        assert forall|i: int| 0 <= i < d.len() implies subtask_le(#[trigger] d[i], b) by {
            assert(d[i] == s[i]);
        }
        lemma_insert_subtask_bounded(x, d, b);
        let r = insert_subtask(x, s);
        let r0 = insert_subtask(x, d);
        assert forall|i: int| 0 <= i < r.len() implies subtask_le(#[trigger] r[i], b) by {
            if i < r0.len() {
                assert(r[i] == r0[i]);
            } else {
                assert(r[i] == s[s.len() - 1]);
            }
        }
    }
}

proof fn lemma_insert_subtask_sorted(x: SubTaskView, s: Seq<SubTaskView>)
    requires
        subtasks_sorted(s),
    ensures
        subtasks_sorted(insert_subtask(x, s)),
        insert_subtask(x, s).to_multiset() == s.to_multiset().insert(x),
    decreases s.len(),
{
    broadcast use vstd::seq_lib::group_to_multiset_ensures;
    let r = insert_subtask(x, s);
    if s.len() == 0 {
        assert(r =~= s.push(x));
    } else if subtask_le(s.last(), x) {
        assert forall|i: int, j: int| 0 <= i < j < r.len() implies subtask_le(
            #[trigger] r[i],
            #[trigger] r[j],
        ) by {
            if j == r.len() - 1 && i < s.len() - 1 {
                assert(subtask_le(s[i], s.last()));
            }
        }
    } else {
        let d = s.drop_last();
        let l = s.last();
        assert forall|i: int, j: int| 0 <= i < j < d.len() implies subtask_le(
            #[trigger] d[i],
            #[trigger] d[j],
        ) by {
            assert(d[i] == s[i] && d[j] == s[j]);
        }
        lemma_insert_subtask_sorted(x, d);
        assert forall|i: int| 0 <= i < d.len() implies subtask_le(#[trigger] d[i], l) by {
            assert(d[i] == s[i]);
        }
        lemma_insert_subtask_bounded(x, d, l);
        let r0 = insert_subtask(x, d);
        assert forall|i: int, j: int| 0 <= i < j < r.len() implies subtask_le(
            #[trigger] r[i],
            #[trigger] r[j],
        ) by {
            assert(r[i] == r0[i]);
            if j < r0.len() {
                assert(r[j] == r0[j]);
            }
        }
        assert(s =~= d.push(l));
    }
}

/// The display order of subtasks is sorted and holds the same subtasks.
pub proof fn lemma_sort_subtasks_sorted(s: Seq<SubTaskView>)
    ensures
        subtasks_sorted(sort_subtasks(s)),
        sort_subtasks(s).to_multiset() == s.to_multiset(),
    decreases s.len(),
{
    broadcast use vstd::seq_lib::group_to_multiset_ensures;
    if s.len() > 0 {
        lemma_sort_subtasks_sorted(s.drop_last());
        lemma_insert_subtask_sorted(s.last(), sort_subtasks(s.drop_last()));
        assert(s =~= s.drop_last().push(s.last()));
    }
}

/// Inserting adds exactly one element.
pub proof fn lemma_insert_subtask_len(x: SubTaskView, s: Seq<SubTaskView>)
    ensures
        insert_subtask(x, s).len() == s.len() + 1,
    decreases s.len(),
{
    if s.len() > 0 && !subtask_le(s.last(), x) {
        lemma_insert_subtask_len(x, s.drop_last());
    }
}

/// Sorting keeps the number of subtasks.
pub proof fn lemma_sort_subtasks_len(s: Seq<SubTaskView>)
    ensures
        sort_subtasks(s).len() == s.len(),
    decreases s.len(),
{
    if s.len() > 0 {
        lemma_sort_subtasks_len(s.drop_last());
        lemma_insert_subtask_len(s.last(), sort_subtasks(s.drop_last()));
    }
}

} // verus!
