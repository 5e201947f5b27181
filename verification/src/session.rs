//! Files, saving and history snapshots: what the editor does when a file
//! is opened or saved, when the recovery copy is due, and how snapshots are
//! taken and restored. Clock readings are milliseconds since the editor
//! started; reading files and the clock is left to the caller.
use vstd::prelude::*;
use crate::tab::{Tab, path_view};
use crate::stats::{count_words, count_words_in};
use crate::writer::{
    Writer,
    HistoryEntry,
    with_recent,
    add_to_recent,
    history_view,
    pushed_history,
    snapshot_step,
    push_snapshot,
    tab_text_set,
    strings_view,
    MAX_RECENT,
};

verus! {

/// How long a modified document waits before its recovery copy is written.
pub const AUTO_SAVE_MS: u64 = 30000;

/// How long the text must go unsnapshotted before an automatic snapshot.
pub const SNAPSHOT_MS: u64 = 15000;

/// Whether more than `limit` milliseconds passed from `from` to `now`
/// (a clock reading before `from` counts as no time).
pub open spec fn elapsed_over(from: u64, now: u64, limit: u64) -> bool {
    now > from && now - from > limit
}

/// The paths of `paths` whose flag in `exists` is set, in order, at most ten.
pub open spec fn kept_paths(paths: Seq<Seq<char>>, exists: Seq<bool>) -> Seq<Seq<char>>
    decreases paths.len(),
{
    if paths.len() == 0 {
        seq![]
    } else {
        let r = kept_paths(paths.drop_last(), exists);
        let k = paths.len() - 1;
        if exists[k] && r.len() < MAX_RECENT {
            r.push(paths.last())
        } else {
            r
        }
    }
}

/// The recent-file list as loaded: the listed paths that still exist, in
/// order, at most ten. `exists[i]` tells whether `paths[i]` exists.
pub fn existing_recent(paths: Vec<String>, exists: &Vec<bool>) -> (r: Vec<String>)
    requires
        exists@.len() == paths@.len(),
    ensures
        strings_view(r@) == kept_paths(strings_view(paths@), exists@),
        r@.len() <= MAX_RECENT,
{
    let ghost ps = strings_view(paths@);
    let mut r: Vec<String> = Vec::new();
    let mut k: usize = 0;
    while k < paths.len()
        invariant
            ps == strings_view(paths@),
            exists@.len() == paths@.len(),
            k <= paths@.len(),
            strings_view(r@) == kept_paths(ps.take(k as int), exists@),
            r@.len() <= MAX_RECENT,
        decreases paths@.len() - k,
    {
        proof {
            assert(ps.take(k + 1).drop_last() =~= ps.take(k as int));
            assert(ps.take(k + 1).last() == ps[k as int]);
            assert(kept_paths(ps.take(k as int), exists@).len() == r@.len());
        }
        if exists[k] && r.len() < MAX_RECENT {
            let ghost r0 = r@;
            r.push(paths[k].clone());
            proof {
                assert(strings_view(r@) =~= strings_view(r0).push(ps[k as int]));
            }
        }
        k += 1;
    }
    proof {
        assert(ps.take(paths@.len() as int) =~= ps);
    }
    r
}

impl Writer {
    /// Replaces the active tab.
    #[verifier::spinoff_prover]
    fn set_active_tab(&mut self, t: Tab)
        requires
            old(self).wf(),
        ensures
            final(self).tabs@ == old(self).tabs@.update(old(self).active as int, t),
            final(self).active == old(self).active,
            final(self).cursor_byte_pos == old(self).cursor_byte_pos,
            final(self).same_find(old(self)),
            final(self).same_view(old(self)),
            final(self).same_data(old(self)),
            final(self).same_ai(old(self)),
    {
        let i = self.active;
        self.tabs.set(i, t);
    }

    /// Puts `path` first in the recent-file list.
    #[verifier::spinoff_prover]
    pub fn add_recent(&mut self, path: &String)
        ensures
            final(self).recent_view() == with_recent(old(self).recent_view(), path@),
            final(self).same_doc(old(self)),
            final(self).same_find(old(self)),
            final(self).same_view(old(self)),
            final(self).same_goal(old(self)),
            final(self).same_history(old(self)),
            final(self).same_clock(old(self)),
            final(self).same_ai(old(self)),
    {
        let r = add_to_recent(&self.recent_files, path);
        self.recent_files = r;
    }

    /// Shows a file that was read: in the active tab when it is an untouched
    /// empty untitled one, else in a new tab that becomes active. The file
    /// goes first in the recent list and the cursor to the start.
    #[verifier::spinoff_prover]
    pub fn open_document(&mut self, path: String, content: String)
        requires
            old(self).wf(),
        ensures
            final(self).wf(),
            ({
                let t = old(self).tabs@[old(self).active as int];
                let opened = Tab { text: content, file_path: Some(path), modified: false };
                if t.text@.len() == 0 && t.file_path is None && !t.modified {
                    &&& final(self).tabs@ == old(self).tabs@.update(old(self).active as int, opened)
                    &&& final(self).active == old(self).active
                } else {
                    &&& final(self).tabs@ == old(self).tabs@.push(opened)
                    &&& final(self).active == old(self).tabs@.len()
                }
            }),
            final(self).recent_view() == with_recent(old(self).recent_view(), path@),
            final(self).cursor_byte_pos == 0,
            final(self).same_find(old(self)),
            final(self).same_view(old(self)),
            final(self).same_goal(old(self)),
            final(self).same_history(old(self)),
            final(self).same_clock(old(self)),
            final(self).same_ai(old(self)),
    {
        let opened = Tab { text: content, file_path: Some(path.clone()), modified: false };
        self.show_opened(opened);
        self.add_recent(&path);
        self.cursor_byte_pos = 0;
    }

    /// Puts an opened document in the active tab when that one is an
    /// untouched empty untitled tab, else in a new active tab.
    #[verifier::spinoff_prover]
    fn show_opened(&mut self, opened: Tab)
        requires
            old(self).wf(),
        ensures
            final(self).wf(),
            ({
                let t = old(self).tabs@[old(self).active as int];
                if t.text@.len() == 0 && t.file_path is None && !t.modified {
                    &&& final(self).tabs@ == old(self).tabs@.update(old(self).active as int, opened)
                    &&& final(self).active == old(self).active
                } else {
                    &&& final(self).tabs@ == old(self).tabs@.push(opened)
                    &&& final(self).active == old(self).tabs@.len()
                }
            }),
            final(self).cursor_byte_pos == old(self).cursor_byte_pos,
            final(self).same_find(old(self)),
            final(self).same_view(old(self)),
            final(self).same_data(old(self)),
            final(self).same_ai(old(self)),
    {
        let reuse = {
            let t = &self.tabs[self.active];
            t.text.as_str().is_empty() && t.file_path.is_none() && !t.modified
        };
        if reuse {
            self.set_active_tab(opened);
        } else {
            self.tabs.push(opened);
            self.active = self.tabs.len() - 1;
        }
    }

    /// The file the active tab is saved to, if it has one.
    pub fn save_target(&self) -> (r: Option<String>)
        requires
            self.wf(),
        ensures
            path_view(r) == path_view(self.tabs@[self.active as int].file_path),
    {
        match &self.tabs[self.active].file_path {
            Some(p) => Some(p.clone()),
            None => None,
        }
    }

    /// Gives the active tab the file chosen for "save as".
    #[verifier::spinoff_prover]
    pub fn set_active_path(&mut self, path: String)
        requires
            old(self).wf(),
        ensures
            final(self).wf(),
            final(self).tabs@ == old(self).tabs@.update(
                old(self).active as int,
                Tab {
                    file_path: Some(path),
                    ..old(self).tabs@[old(self).active as int]
                },
            ),
            final(self).active == old(self).active,
            final(self).cursor_byte_pos == old(self).cursor_byte_pos,
            final(self).same_find(old(self)),
            final(self).same_view(old(self)),
            final(self).same_data(old(self)),
            final(self).same_ai(old(self)),
    {
        let i = self.active;
        let mut t = self.tabs.remove(i);
        t.file_path = Some(path);
        self.tabs.insert(i, t);
        proof {
            assert(self.tabs@ =~= old(self).tabs@.update(i as int, t));
        }
    }

    /// Records that the active tab was written to its file at `now_ms`: it
    /// is no longer modified, the save notice shows, and the file goes first
    /// in the recent list. Nothing changes for a tab without a file.
    #[verifier::spinoff_prover]
    pub fn mark_saved(&mut self, now_ms: u64)
        requires
            old(self).wf(),
        ensures
            final(self).wf(),
            match old(self).tabs@[old(self).active as int].file_path {
                Some(p) => {
                    &&& final(self).tabs@ == old(self).tabs@.update(
                        old(self).active as int,
                        Tab { modified: false, ..old(self).tabs@[old(self).active as int] },
                    )
                    &&& final(self).save_flash_ms == Some(now_ms)
                    &&& final(self).recent_view() == with_recent(old(self).recent_view(), p@)
                    &&& final(self).last_auto_save_ms == old(self).last_auto_save_ms
                },
                None => {
                    &&& final(self).tabs@ == old(self).tabs@
                    &&& final(self).same_recent(old(self))
                    &&& final(self).same_clock(old(self))
                },
            },
            final(self).active == old(self).active,
            final(self).cursor_byte_pos == old(self).cursor_byte_pos,
            final(self).same_find(old(self)),
            final(self).same_view(old(self)),
            final(self).same_goal(old(self)),
            final(self).same_history(old(self)),
            final(self).same_ai(old(self)),
    {
        let i = self.active;
        match self.save_target() {
            Some(p) => {
                let mut t = self.tabs.remove(i);
                t.modified = false;
                self.tabs.insert(i, t);
                proof {
                    assert(self.tabs@ =~= old(self).tabs@.update(i as int, t));
                }
                self.save_flash_ms = Some(now_ms);
                self.add_recent(&p);
            },
            None => {},
        }
    }

    /// The recovery copy to write at `now_ms`: the active text, when the tab
    /// is modified, not empty, and the last copy is more than thirty seconds
    /// old; the time of the copy is then recorded.
    #[verifier::spinoff_prover]
    pub fn auto_save(&mut self, now_ms: u64) -> (r: Option<String>)
        requires
            old(self).wf(),
        ensures
            final(self).same_doc(old(self)),
            final(self).same_find(old(self)),
            final(self).same_view(old(self)),
            final(self).same_recent(old(self)),
            final(self).same_goal(old(self)),
            final(self).same_history(old(self)),
            final(self).same_ai(old(self)),
            final(self).save_flash_ms == old(self).save_flash_ms,
            if old(self).tabs@[old(self).active as int].modified && old(self).text_view().len() > 0
                && elapsed_over(old(self).last_auto_save_ms, now_ms, AUTO_SAVE_MS) {
                &&& r matches Some(t) && t@ == old(self).text_view()
                &&& final(self).last_auto_save_ms == now_ms
            } else {
                &&& r is None
                &&& final(self).last_auto_save_ms == old(self).last_auto_save_ms
            },
    {
        let due = now_ms > self.last_auto_save_ms && now_ms - self.last_auto_save_ms > AUTO_SAVE_MS;
        let t = &self.tabs[self.active];
        if t.modified && !t.text.as_str().is_empty() && due {
            let text = t.text.clone();
            self.last_auto_save_ms = now_ms;
            Some(text)
        } else {
            None
        }
    }

    /// The recovery copy to write when the window closes: the active text
    /// when it is modified and not empty.
    pub fn recovery_text(&self) -> (r: Option<String>)
        requires
            self.wf(),
        ensures
            if self.tabs@[self.active as int].modified && self.text_view().len() > 0 {
                r matches Some(t) && t@ == self.text_view()
            } else {
                r is None
            },
    {
        let t = &self.tabs[self.active];
        if t.modified && !t.text.as_str().is_empty() {
            Some(t.text.clone())
        } else {
            None
        }
    }

    // ── History ───────────────────────────────────────────────────────

    /// Records the active text as a snapshot taken at `now_ms`, unless it is
    /// the text of the last snapshot; beyond a hundred snapshots the oldest
    /// is dropped.
    #[verifier::spinoff_prover]
    pub fn take_snapshot(&mut self, now_ms: u64)
        requires
            old(self).wf(),
        ensures
            final(self).wf(),
            if old(self).text_view() == old(self).last_snapshot_text@ {
                final(self).same_history(old(self))
            } else {
                &&& history_view(final(self).history@) == pushed_history(
                    history_view(old(self).history@),
                    (old(self).text_view(), now_ms, count_words(old(self).text_view()) as usize),
                )
                &&& final(self).last_snapshot_text@ == old(self).text_view()
                &&& final(self).last_snapshot_ms == old(self).last_snapshot_ms
            },
            (history_view(final(self).history@), final(self).last_snapshot_text@) == snapshot_step(
                history_view(old(self).history@),
                old(self).last_snapshot_text@,
                old(self).text_view(),
                now_ms,
            ),
            final(self).same_doc(old(self)),
            final(self).same_find(old(self)),
            final(self).same_view(old(self)),
            final(self).same_recent(old(self)),
            final(self).same_goal(old(self)),
            final(self).same_clock(old(self)),
            final(self).same_ai(old(self)),
    {
        let text = self.tabs[self.active].text.clone();
        if text == self.last_snapshot_text {
            return;
        }
        let wc = count_words_in(text.as_str());
        let entry = HistoryEntry { text: text.clone(), timestamp: now_ms, word_count: wc };
        let mut h: Vec<HistoryEntry> = Vec::new();
        std::mem::swap(&mut h, &mut self.history);
        self.history = push_snapshot(h, entry);
        self.last_snapshot_text = text;
    }

    /// Puts the text of snapshot `idx` into the active tab, marking it
    /// modified; nothing happens for an index past the end.
    #[verifier::spinoff_prover]
    pub fn restore_history(&mut self, idx: usize)
        requires
            old(self).wf(),
        ensures
            final(self).wf(),
            if idx < old(self).history@.len() {
                &&& tab_text_set(old(self).tabs@, final(self).tabs@, old(self).active as int,
                    old(self).history@[idx as int].text@, true)
                &&& final(self).last_snapshot_text@ == old(self).history@[idx as int].text@
                &&& final(self).history == old(self).history
                &&& final(self).last_snapshot_ms == old(self).last_snapshot_ms
            } else {
                &&& final(self).tabs == old(self).tabs
                &&& final(self).same_history(old(self))
            },
            final(self).active == old(self).active,
            final(self).cursor_byte_pos == old(self).cursor_byte_pos,
            final(self).same_find(old(self)),
            final(self).same_view(old(self)),
            final(self).same_recent(old(self)),
            final(self).same_goal(old(self)),
            final(self).same_clock(old(self)),
            final(self).same_ai(old(self)),
    {
        if idx < self.history.len() {
            let text = self.history[idx].text.clone();
            self.set_active_text(text.clone(), true);
            self.last_snapshot_text = text;
        }
    }

    /// Takes a snapshot at `now_ms` when more than fifteen seconds passed
    /// since the last automatic one and the active text is not empty and
    /// differs from the last snapshot; tells whether it did.
    #[verifier::spinoff_prover]
    pub fn auto_snapshot(&mut self, now_ms: u64) -> (taken: bool)
        requires
            old(self).wf(),
        ensures
            final(self).wf(),
            taken == (elapsed_over(old(self).last_snapshot_ms, now_ms, SNAPSHOT_MS)
                && old(self).text_view() != old(self).last_snapshot_text@
                && old(self).text_view().len() > 0),
            taken ==> {
                &&& history_view(final(self).history@) == pushed_history(
                    history_view(old(self).history@),
                    (old(self).text_view(), now_ms, count_words(old(self).text_view()) as usize),
                )
                &&& final(self).last_snapshot_text@ == old(self).text_view()
                &&& final(self).last_snapshot_ms == now_ms
            },
            !taken ==> final(self).same_history(old(self)),
            final(self).same_doc(old(self)),
            final(self).same_find(old(self)),
            final(self).same_view(old(self)),
            final(self).same_recent(old(self)),
            final(self).same_goal(old(self)),
            final(self).same_clock(old(self)),
            final(self).same_ai(old(self)),
    {
        let due = now_ms > self.last_snapshot_ms && now_ms - self.last_snapshot_ms > SNAPSHOT_MS;
        let changed = self.tabs[self.active].text != self.last_snapshot_text;
        if due && changed && !self.tabs[self.active].text.as_str().is_empty() {
            self.take_snapshot(now_ms);
            self.last_snapshot_ms = now_ms;
            true
        } else {
            false
        }
    }

    /// Drops every snapshot.
    #[verifier::spinoff_prover]
    pub fn clear_history(&mut self)
        ensures
            final(self).history@.len() == 0,
            final(self).last_snapshot_text == old(self).last_snapshot_text,
            final(self).last_snapshot_ms == old(self).last_snapshot_ms,
            final(self).same_doc(old(self)),
            final(self).same_find(old(self)),
            final(self).same_view(old(self)),
            final(self).same_recent(old(self)),
            final(self).same_goal(old(self)),
            final(self).same_clock(old(self)),
            final(self).same_ai(old(self)),
    {
        self.history = Vec::new();
    }
}

} // verus!
