//! The reminder scan: which tasks are due for a notification, and the
//! scheduler's tick that hands each out once and marks it fired.
use vstd::prelude::*;
use crate::datetime::{
    LocalClock, LocalDateTime, parse_timestamp, parse_timestamp_spec, stamp_of, stamp_text,
    timestamp_due, timestamp_due_exec,
};
use crate::model::{TodoView, copy_opt_text, opt_text, todo_views};
use crate::text::text_equal;
use super::{StoreView, TodoStore};
use super::settings::lookup_or;

verus! {

/// A task is due at `now`: open, not yet notified, and its reminder time,
/// moved earlier by its lead time in minutes, has come. A reminder time
/// with a zone is compared as that instant, one without as local time. A
/// reminder time that does not read as a timestamp is never due.
pub open spec fn due(t: TodoView, now: LocalClock) -> bool {
    &&& !t.completed
    &&& !t.notified
    &&& t.notify_at is Some
    &&& parse_timestamp_spec(t.notify_at.unwrap()) is Some
    &&& timestamp_due(
        parse_timestamp_spec(t.notify_at.unwrap()).unwrap().0,
        parse_timestamp_spec(t.notify_at.unwrap()).unwrap().1,
        t.notify_before as int,
        now,
    )
}

/// A due reminder: the task's id, title and description.
#[derive(Debug, Clone)]
pub struct PendingNotification {
    pub id: i64,
    pub title: String,
    pub description: Option<String>,
}

impl View for PendingNotification {
    type V = (i64, Seq<char>, Option<Seq<char>>);

    open spec fn view(&self) -> (i64, Seq<char>, Option<Seq<char>>) {
        (self.id, self.title@, opt_text(self.description))
    }
}

/// The due tasks' reminders, in storage order.
pub open spec fn pending(todos: Seq<TodoView>, now: LocalClock) -> Seq<(i64, Seq<char>, Option<Seq<char>>)>
    decreases todos.len(),
{
    if todos.len() == 0 {
        Seq::empty()
    } else if due(todos.last(), now) {
        pending(todos.drop_last(), now).push(
            (todos.last().id, todos.last().title, todos.last().description),
        )
    } else {
        pending(todos.drop_last(), now)
    }
}

/// A task once its reminder has fired.
pub open spec fn fired(t: TodoView, stamp: Seq<char>) -> TodoView {
    TodoView { notified: true, updated_at: stamp, ..t }
}

/// The store after task `id` is marked notified.
pub open spec fn after_mark(m: StoreView, id: i64, stamp: Seq<char>) -> StoreView {
    StoreView {
        todos: Seq::new(
            m.todos.len(),
            |i: int| if m.todos[i].id == id { fired(m.todos[i], stamp) } else { m.todos[i] },
        ),
        ..m
    }
}

/// The store after a scheduler tick: every due task marked notified.
pub open spec fn after_tick(m: StoreView, now: LocalClock) -> StoreView {
    StoreView {
        todos: Seq::new(
            m.todos.len(),
            |i: int| if due(m.todos[i], now) { fired(m.todos[i], stamp_text(now.at)) } else { m.todos[i] },
        ),
        ..m
    }
}

/// The body a notification shows: the description, or a general reminder line.
pub open spec fn notification_body(description: Option<Seq<char>>) -> Seq<char> {
    match description {
        Some(d) => d,
        None => "待办事项提醒"@,
    }
}

/// The two ways a reminder is shown.
#[derive(Debug, Clone, Copy, PartialEq, Eq, Structural)]
pub enum Channel {
    /// A native system notification.
    System,
    /// A floating notification window of the application.
    InApp,
}

/// The channel a notification type setting selects: `app` for the
/// application's own window, anything else the system's.
pub open spec fn channel_for(notification_type: Seq<char>) -> Channel {
    if notification_type == "app"@ { Channel::InApp } else { Channel::System }
}

/// A notification to show.
#[derive(Debug, Clone)]
pub struct Notification {
    pub todo_id: i64,
    pub channel: Channel,
    pub title: String,
    pub body: String,
}

/// The notification for a due reminder `p` on `channel`.
pub open spec fn notification_for(p: (i64, Seq<char>, Option<Seq<char>>), channel: Channel, n: Notification) -> bool {
    &&& n.todo_id == p.0
    &&& n.channel == channel
    &&& n.title@ == p.1
    &&& n.body@ == notification_body(p.2)
}

/// The channel for a notification type.
pub fn channel_of(notification_type: &str) -> (r: Channel)
    ensures
        r == channel_for(notification_type@),
{
    if text_equal(notification_type, "app") {
        Channel::InApp
    } else {
        Channel::System
    }
}

/// The text a notification shows under its title.
pub fn body_of(description: &Option<String>) -> (r: String)
    ensures
        r@ == notification_body(opt_text(*description)),
{
    match description {
        Some(d) => d.clone(),
        None => String::from_str("待办事项提醒"),
    }
}

/// Whether task row `t` is due at `now`.
fn is_due(t: &crate::model::Todo, now: &LocalClock) -> (r: bool)
    requires
        now.valid(),
    ensures
        r == due(t@, *now),
{
    if t.completed || t.notified {
        return false;
    }
    match &t.notify_at {
        None => false,
        Some(at) => match parse_timestamp(at.as_str()) {
            None => false,
            Some((when, zone)) => timestamp_due_exec(&when, zone, t.notify_before, now),
        },
    }
}

/// After a tick at `now`, a scan at the same time finds nothing: every
/// reminder that was due has fired and is marked notified.
pub proof fn lemma_tick_then_scan_finds_nothing(m: StoreView, now: LocalClock)
    ensures
        pending(after_tick(m, now).todos, now).len() == 0,
        forall|i: int|
            0 <= i < m.todos.len() && due(#[trigger] m.todos[i], now) ==> after_tick(
                m,
                now,
            ).todos[i].notified,
{
    lemma_nothing_due_after_tick(m.todos, now);
}

proof fn lemma_nothing_due_after_tick(todos: Seq<TodoView>, now: LocalClock)
    ensures
        pending(
            Seq::new(
                todos.len(),
                |i: int| if due(todos[i], now) { fired(todos[i], stamp_text(now.at)) } else { todos[i] },
            ),
            now,
        ).len() == 0,
    decreases todos.len(),
{
    let f = |i: int| if due(todos[i], now) { fired(todos[i], stamp_text(now.at)) } else { todos[i] };
    let t = Seq::new(todos.len(), f);
    if todos.len() > 0 {
        let t0 = todos.drop_last();
        lemma_nothing_due_after_tick(t0, now);
        assert(t.drop_last() =~= Seq::new(
            t0.len(),
            |i: int| if due(t0[i], now) { fired(t0[i], stamp_text(now.at)) } else { t0[i] },
        ));
        assert(!due(t.last(), now));
    }
}

impl TodoStore {
    /// The reminders due at `now`, in storage order.
    pub fn pending_notifications(&self, now: &LocalClock) -> (r: Vec<PendingNotification>)
        requires
            self.wf(),
            now.valid(),
        ensures
            r@.map_values(|p: PendingNotification| p@) == pending(self@.todos, *now),
    {
        let mut r: Vec<PendingNotification> = Vec::new();
        let mut i: usize = 0;
        proof {
            assert(r@.map_values(|p: PendingNotification| p@) =~= pending(self@.todos.subrange(0, 0), *now));
        }
        while i < self.todos.len()
            invariant
                i <= self.todos@.len(),
                self@.todos == todo_views(self.todos@),
                now.valid(),
                r@.map_values(|p: PendingNotification| p@) == pending(self@.todos.subrange(0, i as int), *now),
            decreases self.todos@.len() - i,
        {
            let ghost before = r@.map_values(|p: PendingNotification| p@);
            proof {
                assert(self@.todos.subrange(0, i + 1).drop_last() =~= self@.todos.subrange(0, i as int));
                assert(self@.todos[i as int] == self.todos@[i as int]@);
            }
            let t = &self.todos[i];
            if is_due(t, now) {
                let p = PendingNotification {
                    id: t.id,
                    title: t.title.clone(),
                    description: copy_opt_text(&t.description),
                };
                let ghost pv = p@;
                r.push(p);
                proof {
                    assert(r@.map_values(|p: PendingNotification| p@) =~= before.push(pv));
                }
            }
            i = i + 1;
        }
        proof {
            assert(self@.todos.subrange(0, self.todos@.len() as int) =~= self@.todos);
        }
        r
    }

    /// Marks task `id` notified, so its reminder does not fire again until
    /// its reminder time is set or cleared.
    pub fn mark_as_notified(&mut self, id: i64, now: &LocalDateTime)
        requires
            old(self).wf(),
        ensures
            final(self).wf(),
            final(self)@ == after_mark(old(self)@, id, stamp_text(*now)),
    {
        let ghost old_m = self@;
        let stamp = stamp_of(now);
        let mut i: usize = 0;
        while i < self.todos.len()
            invariant
                i <= self.todos@.len(),
                self@.todos.len() == old_m.todos.len(),
                self@ == (StoreView { todos: self@.todos, ..old_m }),
                stamp@ == stamp_text(*now),
                forall|j: int| 0 <= j < i ==> #[trigger] self@.todos[j] == (if old_m.todos[j].id == id { fired(old_m.todos[j], stamp_text(*now)) } else { old_m.todos[j] }),
                forall|j: int| i <= j < self@.todos.len() ==> #[trigger] self@.todos[j] == old_m.todos[j],
            decreases self.todos@.len() - i,
        {
            proof {
                assert(self@.todos[i as int] == self.todos@[i as int]@);
            }
            if self.todos[i].id == id {
                let ghost before = self@.todos;
                let mut t = self.todos[i].duplicate();
                t.notified = true;
                t.updated_at = stamp.clone();
                let ghost tv = t@;
                self.todos.set(i, t);
                proof {
                    assert(self@.todos =~= before.update(i as int, tv));
                    assert(tv == fired(old_m.todos[i as int], stamp_text(*now)));
                }
            }
            i = i + 1;
        }
        proof {
            assert(self@.todos =~= after_mark(old_m, id, stamp_text(*now)).todos);
            assert(self@ =~= after_mark(old_m, id, stamp_text(*now)));
            self.lemma_same_ids_wf(old_m);
        }
    }

    /// One scheduler tick at `now`: every due reminder becomes a
    /// notification on the channel the notification type setting selects,
    /// and its task is marked notified, whether or not showing it succeeds
    /// later, so that a failing channel cannot repeat a reminder forever.
    pub fn run_reminders(&mut self, now: &LocalClock) -> (r: Vec<Notification>)
        requires
            old(self).wf(),
            now.valid(),
        ensures
            final(self).wf(),
            final(self)@ == after_tick(old(self)@, *now),
            r@.len() == pending(old(self)@.todos, *now).len(),
            forall|k: int|
                0 <= k < r@.len() ==> notification_for(
                    pending(old(self)@.todos, *now)[k],
                    channel_for(lookup_or(old(self)@.settings, "notification_type"@, "system"@)),
                    #[trigger] r@[k],
                ),
    {
        let ghost old_m = self@;
        let kind = self.get_notification_type();
        let channel = channel_of(kind.as_str());
        let stamp = stamp_of(&now.at);
        let mut r: Vec<Notification> = Vec::new();
        let mut i: usize = 0;
        proof {
            assert(old_m.todos.subrange(0, 0) =~= Seq::<TodoView>::empty());
        }
        while i < self.todos.len()
            invariant
                i <= self.todos@.len(),
                self@.todos.len() == old_m.todos.len(),
                self@ == (StoreView { todos: self@.todos, ..old_m }),
                self@.todos == todo_views(self.todos@),
                now.valid(),
                stamp@ == stamp_text(now.at),
                channel == channel_for(lookup_or(old_m.settings, "notification_type"@, "system"@)),
                forall|j: int| 0 <= j < i ==> #[trigger] self@.todos[j] == (if due(old_m.todos[j], *now) { fired(old_m.todos[j], stamp_text(now.at)) } else { old_m.todos[j] }),
                forall|j: int| i <= j < self@.todos.len() ==> #[trigger] self@.todos[j] == old_m.todos[j],
                r@.len() == pending(old_m.todos.subrange(0, i as int), *now).len(),
                forall|k: int|
                    0 <= k < r@.len() ==> notification_for(
                        pending(old_m.todos.subrange(0, i as int), *now)[k],
                        channel,
                        #[trigger] r@[k],
                    ),
            decreases self.todos@.len() - i,
        {
            let ghost pre = pending(old_m.todos.subrange(0, i as int), *now);
            proof {
                assert(old_m.todos.subrange(0, i + 1).drop_last() =~= old_m.todos.subrange(0, i as int));
                assert(old_m.todos.subrange(0, i + 1).last() == old_m.todos[i as int]);
                assert(self@.todos[i as int] == self.todos@[i as int]@);
            }
            if is_due(&self.todos[i], now) {
                let n = Notification {
                    todo_id: self.todos[i].id,
                    channel: channel,
                    title: self.todos[i].title.clone(),
                    body: body_of(&self.todos[i].description),
                };
                let ghost before = self@.todos;
                let mut t = self.todos[i].duplicate();
                t.notified = true;
                t.updated_at = stamp.clone();
                let ghost tv = t@;
                self.todos.set(i, t);
                r.push(n);
                proof {
                    assert(self@.todos =~= before.update(i as int, tv));
                    assert(tv == fired(old_m.todos[i as int], stamp_text(now.at)));
                    let post = pending(old_m.todos.subrange(0, i + 1), *now);
                    assert(post == pre.push((old_m.todos[i as int].id, old_m.todos[i as int].title, old_m.todos[i as int].description)));
                    assert forall|k: int| 0 <= k < r@.len() implies notification_for(post[k], channel, #[trigger] r@[k]) by {
                        if k < r@.len() - 1 {
                            assert(post[k] == pre[k]);
                        }
                    }
                }
            }
            i = i + 1;
        }
        proof {
            assert(old_m.todos.subrange(0, old_m.todos.len() as int) =~= old_m.todos);
            assert(self@.todos =~= after_tick(old_m, *now).todos);
            assert(self@ =~= after_tick(old_m, *now));
            self.lemma_same_ids_wf(old_m);
        }
        r
    }
}

} // verus!
