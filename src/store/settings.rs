//! The settings table: a bag of text values by key, with documented
//! defaults for the keys the application reads, and the typed view of the
//! window and theme preferences.
use vstd::prelude::*;
use crate::model::{AppSettings, default_text_theme};
use crate::text::text_equal;
use super::{Setting, StoreView, TodoStore, setting_views, store_wf};

verus! {

/// The value stored under `key`: the first entry with that key.
pub open spec fn lookup(s: Seq<(Seq<char>, Seq<char>)>, key: Seq<char>) -> Option<Seq<char>>
    decreases s.len(),
{
    if s.len() == 0 {
        None
    } else if s[0].0 == key {
        Some(s[0].1)
    } else {
        lookup(s.drop_first(), key)
    }
}

/// The value under `key`, or `default` when none is stored.
pub open spec fn lookup_or(s: Seq<(Seq<char>, Seq<char>)>, key: Seq<char>, default: Seq<char>) -> Seq<char> {
    match lookup(s, key) {
        Some(v) => v,
        None => default,
    }
}

/// The notification channel a requested type selects: `system` and `app`
/// are kept, anything else becomes `system`.
pub open spec fn coerced_notification_type(t: Seq<char>) -> Seq<char> {
    if t == "system"@ || t == "app"@ {
        t
    } else {
        "system"@
    }
}

/// A requested notification type other than `system` or `app` is stored
/// as `system`, not refused.
pub proof fn lemma_unknown_notification_type_is_system(t: Seq<char>)
    requires
        t != "system"@,
        t != "app"@,
    ensures
        coerced_notification_type(t) == "system"@,
{
}

/// The store after `key` is set to `value`: every other key reads as before.
pub open spec fn sets(old_m: StoreView, new_m: StoreView, key: Seq<char>, value: Seq<char>) -> bool {
    &&& new_m == StoreView { settings: new_m.settings, ..old_m }
    &&& forall|k: Seq<char>|
        #[trigger] lookup(new_m.settings, k) == if k == key {
            Some(value)
        } else {
            lookup(old_m.settings, k)
        }
}

/// The preferences as `get_settings` reads them.
pub open spec fn app_settings_of(m: StoreView, r: AppSettings) -> bool {
    &&& r.is_fixed == (lookup(m.settings, "is_fixed"@) == Some("true"@))
    &&& r.window_position == m.window_position
    &&& r.window_size == m.window_size
    &&& r.text_theme@ == lookup_or(m.settings, "text_theme"@, "dark"@)
}

/// The store after saving preferences `p`: fixed mode as `true` or
/// `false`, the text theme, and each part of the rectangle that is given
/// (an absent part keeps what was saved); tasks and all other keys as before.
pub open spec fn saved(old_m: StoreView, new_m: StoreView, p: AppSettings) -> bool {
    &&& lookup(new_m.settings, "is_fixed"@) == Some(if p.is_fixed { "true"@ } else { "false"@ })
    &&& lookup(new_m.settings, "text_theme"@) == Some(p.text_theme@)
    &&& new_m.window_position == match p.window_position {
        Some(w) => Some(w),
        None => old_m.window_position,
    }
    &&& new_m.window_size == match p.window_size {
        Some(w) => Some(w),
        None => old_m.window_size,
    }
    &&& forall|k: Seq<char>|
        k != "is_fixed"@ && k != "text_theme"@ ==> #[trigger] lookup(new_m.settings, k) == lookup(
            old_m.settings,
            k,
        )
    &&& new_m.todos == old_m.todos
    &&& new_m.subtasks == old_m.subtasks
    &&& new_m.screens == old_m.screens
    &&& new_m.next_todo_id == old_m.next_todo_id
    &&& new_m.next_subtask_id == old_m.next_subtask_id
    &&& new_m.next_screen_id == old_m.next_screen_id
}

proof fn lemma_lookup_update(s: Seq<(Seq<char>, Seq<char>)>, i: int, key: Seq<char>, v: Seq<char>, k: Seq<char>)
    requires
        0 <= i < s.len(),
        s[i].0 == key,
        forall|j: int| 0 <= j < i ==> (#[trigger] s[j]).0 != key,
    ensures
        lookup(s.update(i, (key, v)), k) == if k == key {
            Some(v)
        } else {
            lookup(s, k)
        },
    decreases i,
{
    let u = s.update(i, (key, v));
    assert(u[0] == (if i == 0 { (key, v) } else { s[0] }));
    if i == 0 {
        assert(u.drop_first() =~= s.drop_first());
    } else {
        assert(u.drop_first() =~= s.drop_first().update(i - 1, (key, v)));
        assert forall|j: int| 0 <= j < i - 1 implies (#[trigger] s.drop_first()[j]).0 != key by {
            assert(s.drop_first()[j] == s[j + 1]);
        }
        assert(s[0].0 != key);
        lemma_lookup_update(s.drop_first(), i - 1, key, v, k);
    }
}

proof fn lemma_lookup_push(s: Seq<(Seq<char>, Seq<char>)>, key: Seq<char>, v: Seq<char>, k: Seq<char>)
    requires
        forall|j: int| 0 <= j < s.len() ==> (#[trigger] s[j]).0 != key,
    ensures
        lookup(s.push((key, v)), k) == if k == key {
            Some(v)
        } else {
            lookup(s, k)
        },
    decreases s.len(),
{
    let p = s.push((key, v));
    assert(p[0] == (if s.len() == 0 { (key, v) } else { s[0] }));
    if s.len() > 0 {
        assert(p.drop_first() =~= s.drop_first().push((key, v)));
        assert forall|j: int| 0 <= j < s.drop_first().len() implies (
        #[trigger] s.drop_first()[j]).0 != key by {
            assert(s.drop_first()[j] == s[j + 1]);
        }
        assert(s[0].0 != key);
        lemma_lookup_push(s.drop_first(), key, v, k);
        if s[0].0 == k {
            assert(lookup(p, k) == Some(s[0].1));
        } else {
            assert(lookup(p, k) == lookup(p.drop_first(), k));
        }
    } else {
        assert(p.drop_first() =~= Seq::<(Seq<char>, Seq<char>)>::empty());
        assert(lookup(p.drop_first(), k) is None);
        assert(lookup(s, k) is None);
    }
}

/// The notification channel a requested type selects; see
/// `coerced_notification_type`.
pub fn coerce_notification_type(t: &str) -> (r: String)
    ensures
        r@ == coerced_notification_type(t@),
{
    if text_equal(t, "system") || text_equal(t, "app") {
        String::from_str(t)
    } else {
        String::from_str("system")
    }
}

impl TodoStore {
    /// Every entry of the settings table, in the order first stored.
    pub fn settings_entries(&self) -> (r: Vec<Setting>)
        requires
            self.wf(),
        ensures
            setting_views(r@) == self@.settings,
    {
        let mut r: Vec<Setting> = Vec::new();
        let mut i: usize = 0;
        while i < self.settings.len()
            invariant
                i <= self.settings@.len(),
                self@.settings == setting_views(self.settings@),
                setting_views(r@) =~= self@.settings.subrange(0, i as int),
            decreases self.settings@.len() - i,
        {
            let e = Setting {
                key: self.settings[i].key.clone(),
                value: self.settings[i].value.clone(),
            };
            let ghost before = setting_views(r@);
            r.push(e);
            proof {
                assert(setting_views(r@) =~= before.push(self@.settings[i as int]));
            }
            i = i + 1;
        }
        proof {
            assert(self@.settings.subrange(0, self.settings@.len() as int) =~= self@.settings);
        }
        r
    }

    /// The value stored under `key`, if any.
    pub fn get_setting(&self, key: &str) -> (r: Option<String>)
        requires
            self.wf(),
        ensures
            match r {
                Some(v) => lookup(self@.settings, key@) == Some(v@),
                None => lookup(self@.settings, key@) is None,
            },
    {
        let mut i: usize = 0;
        proof {
            assert(self@.settings.skip(0) =~= self@.settings);
        }
        while i < self.settings.len()
            invariant
                i <= self.settings@.len(),
                self@.settings == setting_views(self.settings@),
                lookup(self@.settings, key@) == lookup(self@.settings.skip(i as int), key@),
            decreases self.settings@.len() - i,
        {
            let ghost rest = self@.settings.skip(i as int);
            proof {
                assert(rest[0] == self@.settings[i as int]);
                assert(rest.drop_first() =~= self@.settings.skip(i + 1));
            }
            if text_equal(self.settings[i].key.as_str(), key) {
                return Some(self.settings[i].value.clone());
            }
            i = i + 1;
        }
        None
    }

    /// Stores `value` under `key`, replacing what was there.
    pub fn set_setting(&mut self, key: &str, value: &str)
        requires
            old(self).wf(),
        ensures
            final(self).wf(),
            sets(old(self)@, final(self)@, key@, value@),
    {
        let ghost old_m = self@;
        let entry = Setting { key: String::from_str(key), value: String::from_str(value) };
        let mut i: usize = 0;
        while i < self.settings.len()
            invariant
                i <= self.settings@.len(),
                self@ == old_m,
                old_m == old(self)@,
                store_wf(old_m),
                entry@ == (key@, value@),
                forall|j: int| 0 <= j < i ==> (#[trigger] old_m.settings[j]).0 != key@,
            decreases self.settings@.len() - i,
        {
            proof {
                assert(old_m.settings[i as int] == self.settings@[i as int]@);
            }
            if text_equal(self.settings[i].key.as_str(), key) {
                let ghost ev = entry@;
                proof {
                    assert(ev == (key@, value@));
                    assert(old_m.settings[i as int].0 == key@);
                }
                self.settings.set(i, entry);
                proof {
                    assert(self@.settings =~= old_m.settings.update(i as int, ev));
                    assert forall|k: Seq<char>| #[trigger] lookup(self@.settings, k) == if k == key@ {
                        Some(value@)
                    } else {
                        lookup(old_m.settings, k)
                    } by {
                        lemma_lookup_update(old_m.settings, i as int, key@, value@, k);
                    }
                    assert(self@ =~= (StoreView { settings: self@.settings, ..old_m }));
                }
                return;
            }
            i = i + 1;
        }
        let ghost ev = entry@;
        self.settings.push(entry);
        proof {
            assert(self@.settings =~= old_m.settings.push(ev));
            assert forall|k: Seq<char>| #[trigger] lookup(self@.settings, k) == if k == key@ {
                Some(value@)
            } else {
                lookup(old_m.settings, k)
            } by {
                lemma_lookup_push(old_m.settings, key@, value@, k);
            }
            assert(self@ =~= (StoreView { settings: self@.settings, ..old_m }));
        }
    }

    /// The window and theme preferences: fixed mode when `is_fixed` holds
    /// `true`, the saved rectangle, and the text theme (`dark` unless set).
    pub fn get_settings(&self) -> (r: AppSettings)
        requires
            self.wf(),
        ensures
            app_settings_of(self@, r),
    {
        let is_fixed = match self.get_setting("is_fixed") {
            Some(v) => text_equal(v.as_str(), "true"),
            None => false,
        };
        let text_theme = match self.get_setting("text_theme") {
            Some(v) => v,
            None => default_text_theme(),
        };
        proof {
            reveal_strlit("dark");
            assert("dark"@ =~= seq!['d', 'a', 'r', 'k']);
        }
        AppSettings {
            is_fixed: is_fixed,
            window_position: self.window_position,
            window_size: self.window_size,
            text_theme: text_theme,
        }
    }

    /// Saves the preferences: fixed mode as `true` or `false`, the
    /// rectangle's parts that are given (an absent part keeps what was
    /// saved), and the text theme.
    pub fn save_settings(&mut self, settings: &AppSettings)
        requires
            old(self).wf(),
        ensures
            final(self).wf(),
            saved(old(self)@, final(self)@, *settings),
    {
        let ghost m0 = self@;
        if settings.is_fixed {
            self.set_setting("is_fixed", "true");
        } else {
            self.set_setting("is_fixed", "false");
        }
        let ghost m1 = self@;
        self.set_setting("text_theme", settings.text_theme.as_str());
        proof {
            reveal_strlit("is_fixed");
            reveal_strlit("text_theme");
            assert("is_fixed"@ != "text_theme"@) by {
                assert("is_fixed"@[0] != "text_theme"@[0]);
            }
            assert(lookup(self@.settings, "is_fixed"@) == lookup(m1.settings, "is_fixed"@));
        }
        match settings.window_position {
            Some(p) => {
                self.window_position = Some(p);
            },
            None => {},
        }
        match settings.window_size {
            Some(s) => {
                self.window_size = Some(s);
            },
            None => {},
        }
        proof {
            assert forall|k: Seq<char>| k != "is_fixed"@ && k != "text_theme"@ implies #[trigger] lookup(
                self@.settings,
                k,
            ) == lookup(m0.settings, k) by {
                assert(lookup(m1.settings, k) == lookup(m0.settings, k));
            }
        }
    }

    /// The notification channel setting: `system` unless set.
    pub fn get_notification_type(&self) -> (r: String)
        requires
            self.wf(),
        ensures
            r@ == lookup_or(self@.settings, "notification_type"@, "system"@),
    {
        match self.get_setting("notification_type") {
            Some(v) => v,
            None => String::from_str("system"),
        }
    }

    /// Sets the notification channel. A type other than `system` or `app`
    /// is stored as `system` rather than refused.
    pub fn set_notification_type(&mut self, notification_type: &str)
        requires
            old(self).wf(),
        ensures
            final(self).wf(),
            sets(
                old(self)@,
                final(self)@,
                "notification_type"@,
                coerced_notification_type(notification_type@),
            ),
    {
        let valid = coerce_notification_type(notification_type);
        self.set_setting("notification_type", valid.as_str());
    }
}

} // verus!
