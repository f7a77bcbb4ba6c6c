//! Window layouts remembered per monitor arrangement, keyed by the
//! arrangement's signature.
use vstd::prelude::*;
use crate::datetime::{LocalDateTime, stamp_of, stamp_text};
use crate::model::{ScreenConfig, ScreenConfigView, SaveScreenConfigRequest, copy_opt_text, opt_text};
use crate::text::text_equal;
use super::{StoreError, StoreView, TodoStore, screen_views};

verus! {

/// Some layout is saved under `config_id`.
pub open spec fn has_screen(screens: Seq<ScreenConfigView>, config_id: Seq<char>) -> bool {
    exists|i: int| 0 <= i < screens.len() && (#[trigger] screens[i]).config_id == config_id
}

/// The layout a save request writes over `old`, keeping its id and
/// creation time.
pub open spec fn saved_screen(old: ScreenConfigView, req: SaveScreenConfigRequest, stamp: Seq<char>) -> ScreenConfigView {
    ScreenConfigView {
        id: old.id,
        config_id: req.config_id@,
        display_name: opt_text(req.display_name),
        window_x: req.window_x,
        window_y: req.window_y,
        window_width: req.window_width,
        window_height: req.window_height,
        is_fixed: req.is_fixed,
        created_at: old.created_at,
        updated_at: stamp,
    }
}

/// The layout a save request makes for a new arrangement.
pub open spec fn new_screen(req: SaveScreenConfigRequest, id: i64, stamp: Seq<char>) -> ScreenConfigView {
    ScreenConfigView {
        id: id,
        config_id: req.config_id@,
        display_name: opt_text(req.display_name),
        window_x: req.window_x,
        window_y: req.window_y,
        window_width: req.window_width,
        window_height: req.window_height,
        is_fixed: req.is_fixed,
        created_at: stamp,
        updated_at: stamp,
    }
}

/// The layouts without the one under `config_id`.
pub open spec fn without_screen(screens: Seq<ScreenConfigView>, config_id: Seq<char>) -> Seq<ScreenConfigView>
    decreases screens.len(),
{
    if screens.len() == 0 {
        screens
    } else if screens.last().config_id == config_id {
        without_screen(screens.drop_last(), config_id)
    } else {
        without_screen(screens.drop_last(), config_id).push(screens.last())
    }
}

proof fn lemma_without_screen_sub(screens: Seq<ScreenConfigView>, cid: Seq<char>)
    ensures
        forall|j: int|
            0 <= j < without_screen(screens, cid).len() ==> exists|k: int|
                0 <= k < screens.len() && screens[k] == #[trigger] without_screen(screens, cid)[j],
    decreases screens.len(),
{
    if screens.len() > 0 {
        let s0 = screens.drop_last();
        let w0 = without_screen(s0, cid);
        let w = without_screen(screens, cid);
        lemma_without_screen_sub(s0, cid);
        assert forall|j: int| 0 <= j < w.len() implies exists|k: int|
            0 <= k < screens.len() && screens[k] == #[trigger] w[j] by {
            if j < w0.len() {
                assert(w[j] == w0[j]);
                let k = choose|k: int| 0 <= k < s0.len() && s0[k] == w0[j];
                assert(screens[k] == w0[j]);
            } else {
                assert(screens[screens.len() - 1] == w[j]);
            }
        }
    }
}

proof fn lemma_without_screen_distinct(screens: Seq<ScreenConfigView>, cid: Seq<char>)
    requires
        forall|i: int, j: int|
            0 <= i < j < screens.len() ==> (#[trigger] screens[i]).config_id != (
            #[trigger] screens[j]).config_id,
    ensures
        forall|i: int, j: int|
            0 <= i < j < without_screen(screens, cid).len() ==> (#[trigger] without_screen(
                screens,
                cid,
            )[i]).config_id != (#[trigger] without_screen(screens, cid)[j]).config_id,
    decreases screens.len(),
{
    if screens.len() > 0 {
        let s0 = screens.drop_last();
        let w0 = without_screen(s0, cid);
        let w = without_screen(screens, cid);
        lemma_without_screen_distinct(s0, cid);
        lemma_without_screen_sub(s0, cid);
        if screens.last().config_id != cid {
            assert forall|i: int, j: int| 0 <= i < j < w.len() implies (#[trigger] w[i]).config_id
                != (#[trigger] w[j]).config_id by {
                if j == w.len() - 1 {
                    assert(w[i] == w0[i]);
                    let k = choose|k: int| 0 <= k < s0.len() && s0[k] == w0[i];
                    assert(screens[k] == s0[k]);
                } else {
                    assert(w[i] == w0[i]);
                    assert(w[j] == w0[j]);
                }
            }
        }
    }
}

impl TodoStore {
    /// The position of the layout saved under `config_id`.
    fn screen_index(&self, config_id: &str) -> (r: Option<usize>)
        ensures
            r is Some <==> has_screen(self@.screens, config_id@),
            r is Some ==> r.unwrap() < self@.screens.len() && self@.screens[r.unwrap() as int].config_id
                == config_id@,
    {
        let mut i: usize = 0;
        while i < self.screens.len()
            invariant
                i <= self.screens@.len(),
                self@.screens == screen_views(self.screens@),
                forall|j: int| 0 <= j < i ==> (#[trigger] self@.screens[j]).config_id != config_id@,
            decreases self.screens@.len() - i,
        {
            proof {
                assert(self@.screens[i as int] == self.screens@[i as int]@);
            }
            if text_equal(self.screens[i].config_id.as_str(), config_id) {
                return Some(i);
            }
            i = i + 1;
        }
        None
    }

    /// The layout saved for arrangement `config_id`, if any.
    pub fn get_screen_config(&self, config_id: &str) -> (r: Option<ScreenConfig>)
        requires
            self.wf(),
        ensures
            r is Some <==> has_screen(self@.screens, config_id@),
            r is Some ==> exists|i: int|
                0 <= i < self@.screens.len() && self@.screens[i].config_id == config_id@
                    && r.unwrap()@ == self@.screens[i],
    {
        match self.screen_index(config_id) {
            Some(i) => {
                proof {
                    assert(self@.screens[i as int] == self.screens@[i as int]@);
                }
                Some(self.screens[i].duplicate())
            },
            None => None,
        }
    }

    /// Every saved layout, in the order they were first saved.
    pub fn list_screen_configs(&self) -> (r: Vec<ScreenConfig>)
        requires
            self.wf(),
        ensures
            screen_views(r@) == self@.screens,
    {
        let mut r: Vec<ScreenConfig> = Vec::new();
        let mut i: usize = 0;
        while i < self.screens.len()
            invariant
                i <= self.screens@.len(),
                self@.screens == screen_views(self.screens@),
                screen_views(r@) =~= self@.screens.subrange(0, i as int),
            decreases self.screens@.len() - i,
        {
            let ghost before = screen_views(r@);
            let c = self.screens[i].duplicate();
            r.push(c);
            proof {
                assert(screen_views(r@) =~= before.push(self@.screens[i as int]));
            }
            i = i + 1;
        }
        proof {
            assert(self@.screens.subrange(0, self.screens@.len() as int) =~= self@.screens);
        }
        r
    }

    /// Saves the layout for an arrangement: an arrangement already saved
    /// has its layout overwritten (its id and creation time kept); a new
    /// one is added with the next id.
    pub fn save_screen_config(&mut self, req: SaveScreenConfigRequest, now: &LocalDateTime) -> (r:
        Result<ScreenConfig, StoreError>)
        requires
            old(self).wf(),
        ensures
            final(self).wf(),
            has_screen(old(self)@.screens, req.config_id@) ==> r is Ok && exists|i: int|
                0 <= i < old(self)@.screens.len() && old(self)@.screens[i].config_id
                    == req.config_id@ && final(self)@ == (StoreView {
                    screens: old(self)@.screens.update(
                        i,
                        saved_screen(old(self)@.screens[i], req, stamp_text(*now)),
                    ),
                    ..old(self)@
                }) && r.unwrap()@ == final(self)@.screens[i],
            !has_screen(old(self)@.screens, req.config_id@) && old(self)@.next_screen_id
                == i64::MAX ==> r == Err::<ScreenConfig, StoreError>(StoreError::Exhausted)
                && final(self)@ == old(self)@,
            !has_screen(old(self)@.screens, req.config_id@) && old(self)@.next_screen_id
                < i64::MAX ==> r is Ok && final(self)@ == (StoreView {
                screens: old(self)@.screens.push(
                    new_screen(req, old(self)@.next_screen_id, stamp_text(*now)),
                ),
                next_screen_id: (old(self)@.next_screen_id + 1) as i64,
                ..old(self)@
            }) && r.unwrap()@ == final(self)@.screens.last(),
    {
        let ghost old_m = self@;
        let stamp = stamp_of(now);
        match self.screen_index(req.config_id.as_str()) {
            Some(i) => {
                proof {
                    assert(old_m.screens[i as int] == self.screens@[i as int]@);
                }
                let row = ScreenConfig {
                    id: self.screens[i].id,
                    config_id: req.config_id.clone(),
                    display_name: copy_opt_text(&req.display_name),
                    window_x: req.window_x,
                    window_y: req.window_y,
                    window_width: req.window_width,
                    window_height: req.window_height,
                    is_fixed: req.is_fixed,
                    created_at: self.screens[i].created_at.clone(),
                    updated_at: stamp,
                };
                let out = row.duplicate();
                proof {
                    assert(out@ == saved_screen(old_m.screens[i as int], req, stamp_text(*now)));
                }
                self.screens.set(i, row);
                proof {
                    assert(self@.screens =~= old_m.screens.update(i as int, out@));
                    assert(self@.screens[i as int] == out@);
                    assert(self@ =~= (StoreView {
                        screens: old_m.screens.update(i as int, out@),
                        ..old_m
                    }));
                    let m = self@;
                    assert forall|a: int| 0 <= a < m.screens.len() implies 0 < (
                    #[trigger] m.screens[a]).id < m.next_screen_id by {
                        assert(m.screens[a].id == old_m.screens[a].id);
                    }
                    assert forall|a: int, b: int| 0 <= a < b < m.screens.len() implies (
                    #[trigger] m.screens[a]).config_id != (#[trigger] m.screens[b]).config_id by {
                        assert(m.screens[a].config_id == old_m.screens[a].config_id);
                        assert(m.screens[b].config_id == old_m.screens[b].config_id);
                    }
                }
                Ok(out)
            },
            None => {
                if self.next_screen_id == i64::MAX {
                    return Err(StoreError::Exhausted);
                }
                let id = self.next_screen_id;
                let row = ScreenConfig {
                    id: id,
                    config_id: req.config_id.clone(),
                    display_name: copy_opt_text(&req.display_name),
                    window_x: req.window_x,
                    window_y: req.window_y,
                    window_width: req.window_width,
                    window_height: req.window_height,
                    is_fixed: req.is_fixed,
                    created_at: stamp.clone(),
                    updated_at: stamp,
                };
                let out = row.duplicate();
                self.screens.push(row);
                self.next_screen_id = id + 1;
                proof {
                    assert(self@.screens =~= old_m.screens.push(out@));
                    let m = self@;
                    assert forall|a: int| 0 <= a < m.screens.len() implies 0 < (
                    #[trigger] m.screens[a]).id < m.next_screen_id by {
                        if a < old_m.screens.len() {
                            assert(m.screens[a] == old_m.screens[a]);
                        }
                    }
                    assert forall|a: int, b: int| 0 <= a < b < m.screens.len() implies (
                    #[trigger] m.screens[a]).config_id != (#[trigger] m.screens[b]).config_id by {
                        assert(m.screens[a] == old_m.screens[a]);
                        if b < old_m.screens.len() {
                            assert(m.screens[b] == old_m.screens[b]);
                        }
                    }
                }
                Ok(out)
            },
        }
    }

    /// Forgets the layout of arrangement `config_id`, if saved.
    pub fn delete_screen_config(&mut self, config_id: &str)
        requires
            old(self).wf(),
        ensures
            final(self).wf(),
            final(self)@ == (StoreView {
                screens: without_screen(old(self)@.screens, config_id@),
                ..old(self)@
            }),
    {
        let ghost old_m = self@;
        let mut kept: Vec<ScreenConfig> = Vec::new();
        let mut k: usize = 0;
        proof {
            assert(old_m.screens.subrange(0, 0) =~= Seq::<ScreenConfigView>::empty());
        }
        while k < self.screens.len()
            invariant
                k <= self.screens@.len(),
                self@ == old_m,
                screen_views(kept@) == without_screen(old_m.screens.subrange(0, k as int), config_id@),
            decreases self.screens@.len() - k,
        {
            proof {
                assert(old_m.screens.subrange(0, k + 1).drop_last() =~= old_m.screens.subrange(
                    0,
                    k as int,
                ));
                assert(old_m.screens[k as int] == self.screens@[k as int]@);
            }
            if !text_equal(self.screens[k].config_id.as_str(), config_id) {
                let ghost before = screen_views(kept@);
                let c = self.screens[k].duplicate();
                kept.push(c);
                proof {
                    assert(screen_views(kept@) =~= before.push(old_m.screens[k as int]));
                }
            }
            k = k + 1;
        }
        proof {
            assert(old_m.screens.subrange(0, old_m.screens.len() as int) =~= old_m.screens);
        }
        self.screens = kept;
        proof {
            let m = self@;
            assert(m =~= (StoreView { screens: without_screen(old_m.screens, config_id@), ..old_m }));
            lemma_without_screen_sub(old_m.screens, config_id@);
            lemma_without_screen_distinct(old_m.screens, config_id@);
            assert forall|a: int| 0 <= a < m.screens.len() implies 0 < (#[trigger] m.screens[a]).id
                < m.next_screen_id by {
                let k = choose|k: int| 0 <= k < old_m.screens.len() && old_m.screens[k] == m.screens[a];
            }
        }
    }

    /// Gives arrangement `config_id` a display name, or removes it. Fails
    /// with `NotFound` when no layout is saved under that id.
    pub fn update_screen_config_name(&mut self, config_id: &str, display_name: Option<String>, now: &LocalDateTime) -> (r: Result<(), StoreError>)
        requires
            old(self).wf(),
        ensures
            final(self).wf(),
            !has_screen(old(self)@.screens, config_id@) ==> r == Err::<(), StoreError>(
                StoreError::NotFound,
            ) && final(self)@ == old(self)@,
            has_screen(old(self)@.screens, config_id@) ==> r is Ok && exists|i: int|
                0 <= i < old(self)@.screens.len() && old(self)@.screens[i].config_id == config_id@
                    && final(self)@ == (StoreView {
                    screens: old(self)@.screens.update(
                        i,
                        ScreenConfigView {
                            display_name: opt_text(display_name),
                            updated_at: stamp_text(*now),
                            ..old(self)@.screens[i]
                        },
                    ),
                    ..old(self)@
                }),
    {
        let ghost old_m = self@;
        let i = match self.screen_index(config_id) {
            Some(i) => i,
            None => {
                return Err(StoreError::NotFound);
            },
        };
        proof {
            assert(old_m.screens[i as int] == self.screens@[i as int]@);
        }
        let mut row = self.screens[i].duplicate();
        row.display_name = display_name;
        row.updated_at = stamp_of(now);
        let ghost rv = row@;
        self.screens.set(i, row);
        proof {
            assert(self@.screens =~= old_m.screens.update(i as int, rv));
            assert(self@ =~= (StoreView { screens: self@.screens, ..old_m }));
            let m = self@;
            assert forall|a: int| 0 <= a < m.screens.len() implies 0 < (#[trigger] m.screens[a]).id
                < m.next_screen_id by {
                assert(m.screens[a].id == old_m.screens[a].id);
            }
            assert forall|a: int, b: int| 0 <= a < b < m.screens.len() implies (
            #[trigger] m.screens[a]).config_id != (#[trigger] m.screens[b]).config_id by {
                assert(m.screens[a].config_id == old_m.screens[a].config_id);
                assert(m.screens[b].config_id == old_m.screens[b].config_id);
            }
        }
        Ok(())
    }
}

} // verus!
