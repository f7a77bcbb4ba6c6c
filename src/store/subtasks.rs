//! Creating, changing and deleting subtasks.
use vstd::prelude::*;
use crate::datetime::{LocalDateTime, stamp_of, stamp_text};
use crate::model::{CreateSubTaskRequest, SubTask, SubTaskView, UpdateSubTaskRequest, subtask_views};
use super::{StoreError, StoreView, TodoStore, has_subtask, has_todo, store_wf};

verus! {

/// The highest sort order among the subtasks of task `pid`, if it has any.
pub open spec fn max_child_order(subtasks: Seq<SubTaskView>, pid: i64) -> Option<int>
    decreases subtasks.len(),
{
    if subtasks.len() == 0 {
        None
    } else {
        let m = max_child_order(subtasks.drop_last(), pid);
        let s = subtasks.last();
        if s.parent_id != pid {
            m
        } else {
            match m {
                None => Some(s.sort_order as int),
                Some(v) => Some(if s.sort_order > v { s.sort_order as int } else { v }),
            }
        }
    }
}

/// The sort order a new subtask of `pid` gets: one past the highest among
/// its siblings, or 0 for the first.
pub open spec fn next_child_order(subtasks: Seq<SubTaskView>, pid: i64) -> int {
    match max_child_order(subtasks, pid) {
        Some(m) => m + 1,
        None => 0,
    }
}

/// No id or sort position is left for a new subtask of `pid`.
pub open spec fn subtask_create_exhausted(m: StoreView, pid: i64) -> bool {
    m.next_subtask_id == i64::MAX || next_child_order(m.subtasks, pid) > i32::MAX
}

/// The row a subtask request makes: open, created and updated at `stamp`.
pub open spec fn new_subtask(data: CreateSubTaskRequest, id: i64, sort_order: int, stamp: Seq<char>) -> SubTaskView {
    SubTaskView {
        id: id,
        parent_id: data.parent_id,
        title: data.title@,
        completed: false,
        sort_order: sort_order as i32,
        created_at: stamp,
        updated_at: stamp,
    }
}

/// The store after adding a subtask: placed after its siblings.
pub open spec fn after_create_subtask(m: StoreView, data: CreateSubTaskRequest, stamp: Seq<char>) -> StoreView {
    StoreView {
        subtasks: m.subtasks.push(
            new_subtask(
                data,
                m.next_subtask_id,
                next_child_order(m.subtasks, data.parent_id),
                stamp,
            ),
        ),
        next_subtask_id: (m.next_subtask_id + 1) as i64,
        ..m
    }
}

/// A subtask after a partial change.
pub open spec fn subtask_patched(s: SubTaskView, d: UpdateSubTaskRequest, stamp: Seq<char>) -> SubTaskView {
    SubTaskView {
        title: match d.title {
            Some(t) => t@,
            None => s.title,
        },
        completed: match d.completed {
            Some(c) => c,
            None => s.completed,
        },
        sort_order: match d.sort_order {
            Some(o) => o,
            None => s.sort_order,
        },
        updated_at: stamp,
        ..s
    }
}

/// The subtasks without the one with id `id`.
pub open spec fn without_subtask(subtasks: Seq<SubTaskView>, id: i64) -> Seq<SubTaskView>
    decreases subtasks.len(),
{
    if subtasks.len() == 0 {
        subtasks
    } else if subtasks.last().id == id {
        without_subtask(subtasks.drop_last(), id)
    } else {
        without_subtask(subtasks.drop_last(), id).push(subtasks.last())
    }
}

proof fn lemma_without_subtask_sub(subtasks: Seq<SubTaskView>, id: i64)
    ensures
        forall|j: int|
            0 <= j < without_subtask(subtasks, id).len() ==> exists|k: int|
                0 <= k < subtasks.len() && subtasks[k] == #[trigger] without_subtask(
                    subtasks,
                    id,
                )[j],
    decreases subtasks.len(),
{
    if subtasks.len() > 0 {
        let s0 = subtasks.drop_last();
        let w0 = without_subtask(s0, id);
        let w = without_subtask(subtasks, id);
        lemma_without_subtask_sub(s0, id);
        assert forall|j: int| 0 <= j < w.len() implies exists|k: int|
            0 <= k < subtasks.len() && subtasks[k] == #[trigger] w[j] by {
            if j < w0.len() {
                assert(w[j] == w0[j]);
                let k = choose|k: int| 0 <= k < s0.len() && s0[k] == w0[j];
                assert(subtasks[k] == w0[j]);
            } else {
                assert(subtasks[subtasks.len() - 1] == w[j]);
            }
        }
    }
}

proof fn lemma_without_subtask_distinct(subtasks: Seq<SubTaskView>, id: i64)
    requires
        forall|k: int, l: int|
            0 <= k < l < subtasks.len() ==> (#[trigger] subtasks[k]).id != (#[trigger] subtasks[l]).id,
    ensures
        forall|k: int, l: int|
            0 <= k < l < without_subtask(subtasks, id).len() ==> (#[trigger] without_subtask(
                subtasks,
                id,
            )[k]).id != (#[trigger] without_subtask(subtasks, id)[l]).id,
    decreases subtasks.len(),
{
    if subtasks.len() > 0 {
        let s0 = subtasks.drop_last();
        let w0 = without_subtask(s0, id);
        let w = without_subtask(subtasks, id);
        lemma_without_subtask_distinct(s0, id);
        lemma_without_subtask_sub(s0, id);
        if subtasks.last().id != id {
            assert forall|i: int, j: int| 0 <= i < j < w.len() implies (#[trigger] w[i]).id
                != (#[trigger] w[j]).id by {
                if j == w.len() - 1 {
                    assert(w[i] == w0[i]);
                    let k = choose|k: int| 0 <= k < s0.len() && s0[k] == w0[i];
                    assert(subtasks[k] == s0[k]);
                } else {
                    assert(w[i] == w0[i]);
                    assert(w[j] == w0[j]);
                }
            }
        }
    }
}

/// The store after deleting subtask `id`.
pub open spec fn after_delete_subtask(m: StoreView, id: i64) -> StoreView {
    StoreView { subtasks: without_subtask(m.subtasks, id), ..m }
}

proof fn lemma_after_delete_subtask_wf(m: StoreView, id: i64)
    requires
        store_wf(m),
    ensures
        store_wf(after_delete_subtask(m, id)),
{
    let a = after_delete_subtask(m, id);
    lemma_without_subtask_sub(m.subtasks, id);
    lemma_without_subtask_distinct(m.subtasks, id);
    assert forall|k: int| 0 <= k < a.subtasks.len() implies 0 < (#[trigger] a.subtasks[k]).id
        < a.next_subtask_id && has_todo(a.todos, a.subtasks[k].parent_id) by {
        let l = choose|l: int| 0 <= l < m.subtasks.len() && m.subtasks[l] == a.subtasks[k];
    }
}

impl TodoStore {
    /// The highest sort order among the subtasks of `pid`, if any.
    fn max_child_order_exec(&self, pid: i64) -> (r: Option<i32>)
        ensures
            match r {
                Some(v) => max_child_order(self@.subtasks, pid) == Some(v as int),
                None => max_child_order(self@.subtasks, pid) is None,
            },
    {
        let mut m: Option<i32> = None;
        let mut i: usize = 0;
        while i < self.subtasks.len()
            invariant
                i <= self.subtasks@.len(),
                self@.subtasks == subtask_views(self.subtasks@),
                match m {
                    Some(v) => max_child_order(self@.subtasks.subrange(0, i as int), pid) == Some(v as int),
                    None => max_child_order(self@.subtasks.subrange(0, i as int), pid) is None,
                },
            decreases self.subtasks@.len() - i,
        {
            proof {
                assert(self@.subtasks.subrange(0, i + 1).drop_last() =~= self@.subtasks.subrange(
                    0,
                    i as int,
                ));
            }
            if self.subtasks[i].parent_id == pid {
                let o = self.subtasks[i].sort_order;
                m = match m {
                    None => Some(o),
                    Some(v) => Some(if o > v { o } else { v }),
                };
            }
            i = i + 1;
        }
        proof {
            assert(self@.subtasks.subrange(0, self.subtasks@.len() as int) =~= self@.subtasks);
        }
        m
    }

    /// Adds a subtask to task `data.parent_id`, after its siblings: its sort
    /// order is one past the highest among them (0 for the first). Fails
    /// with `NotFound` when no such task is stored.
    pub fn create_subtask(&mut self, data: CreateSubTaskRequest, now: &LocalDateTime) -> (r:
        Result<SubTask, StoreError>)
        requires
            old(self).wf(),
        ensures
            final(self).wf(),
            !has_todo(old(self)@.todos, data.parent_id) ==> r == Err::<SubTask, StoreError>(
                StoreError::NotFound,
            ) && final(self)@ == old(self)@,
            has_todo(old(self)@.todos, data.parent_id) && subtask_create_exhausted(
                old(self)@,
                data.parent_id,
            ) ==> r == Err::<SubTask, StoreError>(StoreError::Exhausted) && final(self)@ == old(self)@,
            has_todo(old(self)@.todos, data.parent_id) && !subtask_create_exhausted(
                old(self)@,
                data.parent_id,
            ) ==> r is Ok && final(self)@ == after_create_subtask(
                old(self)@,
                data,
                stamp_text(*now),
            ) && r.unwrap()@ == final(self)@.subtasks.last(),
    {
        if self.todo_index(data.parent_id).is_none() {
            return Err(StoreError::NotFound);
        }
        let next: i64 = match self.max_child_order_exec(data.parent_id) {
            Some(v) => v as i64 + 1,
            None => 0,
        };
        if self.next_subtask_id == i64::MAX || next > i32::MAX as i64 {
            return Err(StoreError::Exhausted);
        }
        let stamp = stamp_of(now);
        let id = self.next_subtask_id;
        let row = SubTask {
            id: id,
            parent_id: data.parent_id,
            title: data.title.clone(),
            completed: false,
            sort_order: next as i32,
            created_at: stamp.clone(),
            updated_at: stamp,
        };
        let out = row.duplicate();
        let ghost old_m = self@;
        self.subtasks.push(row);
        self.next_subtask_id = id + 1;
        proof {
            assert(self@.subtasks =~= old_m.subtasks.push(out@));
            assert(self@ =~= after_create_subtask(old_m, data, stamp_text(*now)));
            let m = self@;
            assert forall|k: int| 0 <= k < m.subtasks.len() implies 0 < (#[trigger] m.subtasks[k]).id
                < m.next_subtask_id && has_todo(m.todos, m.subtasks[k].parent_id) by {
                if k < old_m.subtasks.len() {
                    assert(m.subtasks[k] == old_m.subtasks[k]);
                }
            }
            assert forall|k: int, l: int| 0 <= k < l < m.subtasks.len() implies (
            #[trigger] m.subtasks[k]).id != (#[trigger] m.subtasks[l]).id by {
                assert(m.subtasks[k] == old_m.subtasks[k]);
                if l < old_m.subtasks.len() {
                    assert(m.subtasks[l] == old_m.subtasks[l]);
                }
            }
        }
        Ok(out)
    }

    /// Changes the fields that `data` names of subtask `id`, as
    /// `update_todo` does for tasks.
    pub fn update_subtask(&mut self, id: i64, data: UpdateSubTaskRequest, now: &LocalDateTime) -> (r:
        Result<SubTask, StoreError>)
        requires
            old(self).wf(),
        ensures
            final(self).wf(),
            data.is_empty() ==> r == Err::<SubTask, StoreError>(StoreError::NoFieldsToUpdate)
                && final(self)@ == old(self)@,
            !data.is_empty() && !has_subtask(old(self)@.subtasks, id) ==> r == Err::<
                SubTask,
                StoreError,
            >(StoreError::NotFound) && final(self)@ == old(self)@,
            !data.is_empty() && has_subtask(old(self)@.subtasks, id) ==> r is Ok && exists|k: int|
                0 <= k < old(self)@.subtasks.len() && old(self)@.subtasks[k].id == id && final(self)@ == (StoreView {
                    subtasks: old(self)@.subtasks.update(
                        k,
                        subtask_patched(old(self)@.subtasks[k], data, stamp_text(*now)),
                    ),
                    ..old(self)@
                }) && r.unwrap()@ == final(self)@.subtasks[k],
    {
        if data.title.is_none() && data.completed.is_none() && data.sort_order.is_none() {
            return Err(StoreError::NoFieldsToUpdate);
        }
        let k = match self.subtask_index(id) {
            Some(k) => k,
            None => {
                return Err(StoreError::NotFound);
            },
        };
        let stamp = stamp_of(now);
        let old_s = &self.subtasks[k];
        let row = SubTask {
            id: old_s.id,
            parent_id: old_s.parent_id,
            title: match &data.title {
                Some(t) => t.clone(),
                None => old_s.title.clone(),
            },
            completed: match data.completed {
                Some(c) => c,
                None => old_s.completed,
            },
            sort_order: match data.sort_order {
                Some(o) => o,
                None => old_s.sort_order,
            },
            created_at: old_s.created_at.clone(),
            updated_at: stamp,
        };
        let out = row.duplicate();
        let ghost old_m = self@;
        proof {
            assert(old_m.subtasks[k as int] == self.subtasks@[k as int]@);
            assert(out@ =~= subtask_patched(old_m.subtasks[k as int], data, stamp_text(*now)));
        }
        self.subtasks.set(k, row);
        proof {
            assert(self@.subtasks =~= old_m.subtasks.update(k as int, out@));
            assert(self@ =~= (StoreView {
                subtasks: old_m.subtasks.update(k as int, out@),
                ..old_m
            }));
            let m = self@;
            assert forall|a: int| 0 <= a < m.subtasks.len() implies 0 < (#[trigger] m.subtasks[a]).id
                < m.next_subtask_id && has_todo(m.todos, m.subtasks[a].parent_id) by {
                assert(m.subtasks[a].id == old_m.subtasks[a].id);
                assert(m.subtasks[a].parent_id == old_m.subtasks[a].parent_id);
            }
            assert forall|a: int, b: int| 0 <= a < b < m.subtasks.len() implies (
            #[trigger] m.subtasks[a]).id != (#[trigger] m.subtasks[b]).id by {
                assert(m.subtasks[a].id == old_m.subtasks[a].id);
                assert(m.subtasks[b].id == old_m.subtasks[b].id);
            }
            assert(old_m.subtasks[k as int].id == id);
            assert(m.subtasks[k as int] == out@);
        }
        Ok(out)
    }

    /// Deletes subtask `id`. An id not stored changes nothing.
    pub fn delete_subtask(&mut self, id: i64)
        requires
            old(self).wf(),
        ensures
            final(self).wf(),
            final(self)@ == after_delete_subtask(old(self)@, id),
    {
        let ghost old_m = self@;
        let mut kept: Vec<SubTask> = Vec::new();
        let mut k: usize = 0;
        proof {
            assert(old_m.subtasks.subrange(0, 0) =~= Seq::<SubTaskView>::empty());
        }
        while k < self.subtasks.len()
            invariant
                k <= self.subtasks@.len(),
                self@ == old_m,
                subtask_views(kept@) == without_subtask(old_m.subtasks.subrange(0, k as int), id),
            decreases self.subtasks@.len() - k,
        {
            proof {
                assert(old_m.subtasks.subrange(0, k + 1).drop_last() =~= old_m.subtasks.subrange(
                    0,
                    k as int,
                ));
            }
            if self.subtasks[k].id != id {
                let ghost before = subtask_views(kept@);
                let s = self.subtasks[k].duplicate();
                kept.push(s);
                proof {
                    assert(subtask_views(kept@) =~= before.push(old_m.subtasks[k as int]));
                }
            }
            k = k + 1;
        }
        proof {
            assert(old_m.subtasks.subrange(0, old_m.subtasks.len() as int) =~= old_m.subtasks);
        }
        self.subtasks = kept;
        proof {
            assert(self@ =~= after_delete_subtask(old_m, id));
            lemma_after_delete_subtask_wf(old_m, id);
        }
    }
}

} // verus!
