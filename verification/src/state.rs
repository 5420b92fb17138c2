//! The application state manager: owner of the in-memory aggregate — note
//! list, the open note, the pending soft-deleted note, the save status and
//! the visibility flags — and the sole client of the storage backend. Every
//! storage failure is absorbed here: it surfaces as `SaveStatus::Error` or as
//! state simply not changing, never as a fault.

use crate::note::{Note, NoteSummary, SaveStatus};
use crate::storage::{sorted_desc, summaries_match, StorageBackend};
use crate::title::{title_of, untitled};
use vstd::prelude::*;

verus! {

/// The single in-memory aggregate, over any storage backend.
pub struct AppState<S: StorageBackend> {
    /// Summaries of every persisted note, newest first; refreshed whole after
    /// every mutating storage operation, never patched incrementally.
    pub notes: Vec<NoteSummary>,
    /// The fully loaded note being edited, if any.
    pub current_note: Option<Note>,
    /// The most recently soft-deleted note, kept for undo, if any.
    pub deleted_note: Option<Note>,
    pub is_sidebar_visible: bool,
    pub is_outline_visible: bool,
    pub is_preview_visible: bool,
    pub is_focus_mode: bool,
    /// Save state of the open note; not persisted.
    pub save_status: SaveStatus,
    pub storage: S,
}

/// The visibility flags are as they were.
pub open spec fn same_flags<S: StorageBackend>(pre: AppState<S>, post: AppState<S>) -> bool {
    &&& post.is_sidebar_visible == pre.is_sidebar_visible
    &&& post.is_outline_visible == pre.is_outline_visible
    &&& post.is_preview_visible == pre.is_preview_visible
    &&& post.is_focus_mode == pre.is_focus_mode
}

/// Everything the view reads is as it was; only the storage backend's
/// internals may differ.
pub open spec fn same_core<S: StorageBackend>(pre: AppState<S>, post: AppState<S>) -> bool {
    &&& post.notes == pre.notes
    &&& post.current_note == pre.current_note
    &&& post.deleted_note == pre.deleted_note
    &&& post.save_status == pre.save_status
    &&& same_flags(pre, post)
}

/// What one `save_current_note` call does. With no note open, nothing
/// happens. Otherwise the open note itself is never touched — a failure
/// cannot lose edits — and the status says how the attempt ended: `Saved`
/// with the listing refreshed, or `Error` with the listing untouched. Over a
/// modeled store the status is pinned by whether the store refuses writes.
pub open spec fn save_done<S: StorageBackend>(pre: AppState<S>, post: AppState<S>) -> bool {
    &&& pre.current_note is None ==> post == pre
    &&& pre.current_note matches Some(n) ==> {
        &&& post.current_note == pre.current_note
        &&& post.deleted_note == pre.deleted_note
        &&& same_flags(pre, post)
        &&& post.storage.modeled() == pre.storage.modeled()
        &&& post.storage.writes_fail() == pre.storage.writes_fail()
        &&& (post.save_status == SaveStatus::Saved || post.save_status == SaveStatus::Error)
        &&& pre.storage.modeled() && !pre.storage.writes_fail() ==> post.save_status
            == SaveStatus::Saved
        &&& pre.storage.modeled() && pre.storage.writes_fail() ==> post.save_status
            == SaveStatus::Error
        &&& post.save_status == SaveStatus::Error ==> post.notes == pre.notes && (
        pre.storage.modeled() ==> post.storage.contents() == pre.storage.contents())
        &&& post.save_status == SaveStatus::Saved ==> {
            &&& sorted_desc(post.notes@)
            &&& pre.storage.modeled() ==> {
                &&& post.storage.contents() == pre.storage.contents().insert(n.id@, n)
                &&& summaries_match(post.notes@, post.storage.contents())
            }
        }
    }
}

/// What one `select_note` call does: the previously open note is saved
/// first, then the note under `id` is loaded and becomes current with status
/// `Saved`, or current becomes none when `id` does not resolve.
pub open spec fn select_done<S: StorageBackend>(
    pre: AppState<S>,
    post: AppState<S>,
    id: Seq<char>,
) -> bool {
    &&& post.deleted_note == pre.deleted_note
    &&& same_flags(pre, post)
    &&& post.storage.modeled() == pre.storage.modeled()
    &&& post.storage.writes_fail() == pre.storage.writes_fail()
    &&& match post.current_note {
        Some(m) => m.id@ == id && post.save_status == SaveStatus::Saved,
        None => true,
    }
    &&& pre.storage.modeled() ==> match post.current_note {
        Some(m) => post.storage.contents().dom().contains(id) && m == post.storage.contents()[id],
        None => !post.storage.contents().dom().contains(id),
    }
    &&& pre.current_note is None ==> {
        &&& (pre.storage.modeled() ==> post.storage.contents() == pre.storage.contents())
        &&& post.notes == pre.notes
    }
    &&& pre.current_note matches Some(c) ==> {
        &&& {
            ||| (post.notes == pre.notes && (pre.storage.modeled() ==> post.storage.contents()
                == pre.storage.contents()))
            ||| (sorted_desc(post.notes@) && (pre.storage.modeled() ==> post.storage.contents()
                == pre.storage.contents().insert(c.id@, c) && summaries_match(
                post.notes@,
                post.storage.contents(),
            )))
        }
        &&& pre.storage.modeled() && !pre.storage.writes_fail() ==> {
            &&& sorted_desc(post.notes@)
            &&& post.storage.contents() == pre.storage.contents().insert(c.id@, c)
            &&& summaries_match(post.notes@, post.storage.contents())
        }
    }
}

/// What a successful `delete_current_note` of the open note `n` does: `n`
/// leaves the store and waits in the undo slot, the listing is refreshed,
/// and the newest remaining note (if any) is selected automatically.
pub open spec fn delete_applied<S: StorageBackend>(
    pre: AppState<S>,
    post: AppState<S>,
    n: Note,
) -> bool {
    &&& post.deleted_note == Some(n)
    &&& same_flags(pre, post)
    &&& post.storage.modeled() == pre.storage.modeled()
    &&& post.storage.writes_fail() == pre.storage.writes_fail()
    &&& sorted_desc(post.notes@)
    &&& post.notes@.len() == 0 ==> post.current_note is None
    &&& match post.current_note {
        Some(m) => post.notes@.len() > 0 && m.id@ == post.notes@[0].id@ && post.save_status
            == SaveStatus::Saved,
        None => true,
    }
    &&& pre.storage.modeled() ==> {
        &&& post.storage.contents() == pre.storage.contents().remove(n.id@)
        &&& summaries_match(post.notes@, post.storage.contents())
        &&& post.notes@.len() > 0 ==> post.current_note is Some
        &&& match post.current_note {
            Some(m) => post.storage.contents().dom().contains(m.id@) && m
                == post.storage.contents()[m.id@],
            None => true,
        }
    }
}

/// What a successful `undo_delete` of the pending note `n` does: `n` is
/// persisted again, the undo slot empties, the listing is refreshed, and `n`
/// is re-selected.
pub open spec fn undo_applied<S: StorageBackend>(
    pre: AppState<S>,
    post: AppState<S>,
    n: Note,
) -> bool {
    &&& post.deleted_note is None
    &&& same_flags(pre, post)
    &&& post.storage.modeled() == pre.storage.modeled()
    &&& post.storage.writes_fail() == pre.storage.writes_fail()
    &&& sorted_desc(post.notes@)
    &&& match post.current_note {
        Some(m) => m.id@ == n.id@ && post.save_status == SaveStatus::Saved,
        None => true,
    }
    &&& pre.storage.modeled() ==> {
        &&& (post.storage.contents() == pre.storage.contents().insert(n.id@, n) || (
        pre.current_note matches Some(c) && post.storage.contents() == pre.storage.contents().insert(
            n.id@,
            n,
        ).insert(c.id@, c)))
        &&& post.storage.contents().dom().contains(n.id@)
        &&& ((pre.current_note matches Some(c) && c.id@ == n.id@) || post.storage.contents()[n.id@]
            == n)
        &&& match post.current_note {
            Some(m) => m == post.storage.contents()[n.id@],
            None => false,
        }
        &&& summaries_match(post.notes@, post.storage.contents())
    }
}

/// What one `delete_current_note` call does. With no note open, nothing
/// happens. Otherwise either nothing observable changes (the store refused),
/// or the deletion applied; over a modeled store that does not refuse writes
/// it always applies.
pub open spec fn delete_post<S: StorageBackend>(pre: AppState<S>, post: AppState<S>) -> bool {
    &&& pre.current_note is None ==> post == pre
    &&& pre.current_note matches Some(n) ==> {
        &&& (same_core(pre, post) && (pre.storage.modeled() ==> post.storage.contents()
            == pre.storage.contents()) && post.storage.modeled() == pre.storage.modeled()
            && post.storage.writes_fail() == pre.storage.writes_fail()) || delete_applied(
            pre,
            post,
            n,
        )
        &&& pre.storage.modeled() && !pre.storage.writes_fail() ==> delete_applied(pre, post, n)
    }
}

/// What one `undo_delete` call does. With nothing pending, nothing happens.
/// Otherwise either nothing observable changes (the store refused), or the
/// undo applied; over a modeled store that does not refuse writes it always
/// applies.
pub open spec fn undo_post<S: StorageBackend>(pre: AppState<S>, post: AppState<S>) -> bool {
    &&& pre.deleted_note is None ==> post == pre
    &&& pre.deleted_note matches Some(n) ==> {
        &&& (same_core(pre, post) && (pre.storage.modeled() ==> post.storage.contents()
            == pre.storage.contents()) && post.storage.modeled() == pre.storage.modeled()
            && post.storage.writes_fail() == pre.storage.writes_fail()) || undo_applied(
            pre,
            post,
            n,
        )
        &&& pre.storage.modeled() && !pre.storage.writes_fail() ==> undo_applied(pre, post, n)
    }
}

/// What a fresh note `nn` looks like after a successful `create_note` over a
/// modeled store: empty, titled with the fallback, persisted, listed, and
/// current with status `Saved`.
pub open spec fn created_fresh<S: StorageBackend>(
    pre: AppState<S>,
    post: AppState<S>,
    nn: Note,
) -> bool {
    &&& nn.title@ == untitled()
    &&& nn.content@ == Seq::<char>::empty()
    &&& nn.created_at == nn.updated_at
    &&& post.current_note == Some(nn)
    &&& post.save_status == SaveStatus::Saved
    &&& sorted_desc(post.notes@)
    &&& summaries_match(post.notes@, post.storage.contents())
    &&& post.storage.contents().dom().contains(nn.id@)
    &&& post.storage.contents()[nn.id@] == nn
    &&& (post.storage.contents() == pre.storage.contents().insert(nn.id@, nn) || (
    pre.current_note matches Some(c) && post.storage.contents() == pre.storage.contents().insert(
        c.id@,
        c,
    ).insert(nn.id@, nn)))
}

/// What one `create_note` call does: the previously open note is saved
/// first and is never silently lost — creation is abandoned when that save
/// fails, and when the open note is replaced it stands in the store exactly
/// as it was. Over a willing modeled store a fresh empty note is persisted
/// and becomes current with status `Saved` (unless the freshly drawn id
/// collided with the open note's, which also abandons creation).
pub open spec fn create_done<S: StorageBackend>(pre: AppState<S>, post: AppState<S>) -> bool {
    &&& post.deleted_note == pre.deleted_note
    &&& same_flags(pre, post)
    &&& post.storage.modeled() == pre.storage.modeled()
    &&& post.storage.writes_fail() == pre.storage.writes_fail()
    &&& (post.current_note == pre.current_note || (post.current_note is Some && post.save_status
        == SaveStatus::Saved))
    &&& pre.current_note matches Some(c) ==> (pre.storage.modeled() && post.current_note
        != pre.current_note ==> post.storage.contents().dom().contains(c.id@)
        && post.storage.contents()[c.id@] == c)
    &&& pre.storage.modeled() ==> ((exists|nn: Note| created_fresh(pre, post, nn)) || (
    post.current_note == pre.current_note && (post.storage.contents() == pre.storage.contents() || (
    pre.current_note matches Some(c) && post.storage.contents()
        == pre.storage.contents().insert(c.id@, c)))))
    &&& pre.storage.modeled() && !pre.storage.writes_fail() && pre.current_note is None
        ==> exists|nn: Note| created_fresh(pre, post, nn)
    &&& pre.current_note matches Some(c) ==> (pre.storage.modeled() && !pre.storage.writes_fail()
        ==> ((exists|nn: Note| created_fresh(pre, post, nn)) || (post.current_note
        == pre.current_note && post.storage.contents() == pre.storage.contents().insert(
        c.id@,
        c,
    ))))
}

impl<S: StorageBackend> AppState<S> {
    /// The aggregate's invariant: its backend's own invariant holds.
    pub open spec fn wf(&self) -> bool {
        self.storage.inv()
    }

    /// A fresh aggregate over the given backend: the persisted notes are
    /// listed, nothing is open, nothing is pending undo, every panel flag is
    /// off, and the status is `Saved`.
    pub fn new(storage: S) -> (r: AppState<S>)
        requires
            storage.inv(),
        ensures
            r.wf(),
            r.storage == storage,
            r.current_note is None,
            r.deleted_note is None,
            r.save_status == SaveStatus::Saved,
            !r.is_sidebar_visible,
            !r.is_outline_visible,
            !r.is_preview_visible,
            !r.is_focus_mode,
            sorted_desc(r.notes@),
            storage.modeled() ==> summaries_match(r.notes@, storage.contents()),
    {
        let notes = storage.list_notes();
        AppState {
            notes,
            current_note: None,
            deleted_note: None,
            is_sidebar_visible: false,
            is_outline_visible: false,
            is_preview_visible: false,
            is_focus_mode: false,
            save_status: SaveStatus::Saved,
            storage,
        }
    }

    /// Refreshes the summary list from storage; nothing else changes.
    pub fn load_notes(&mut self)
        requires
            old(self).wf(),
        ensures
            final(self).wf(),
            sorted_desc(final(self).notes@),
            final(self).storage == old(self).storage,
            old(self).storage.modeled() ==> summaries_match(
                final(self).notes@,
                old(self).storage.contents(),
            ),
            final(self).current_note == old(self).current_note,
            final(self).deleted_note == old(self).deleted_note,
            final(self).save_status == old(self).save_status,
            same_flags(*old(self), *final(self)),
    {
        let notes = self.storage.list_notes();
        self.notes = notes;
    }

    /// Applies an edit whose update stamp is handed in: the content is
    /// replaced, the title is re-derived from it, `updated_at` becomes
    /// exactly `now`, and the status becomes `Modified`. Storage is not
    /// touched. With no note open, nothing happens.
    pub fn update_content_at(&mut self, content: String, now: i64)
        requires
            old(self).wf(),
        ensures
            final(self).wf(),
            old(self).current_note is None ==> *final(self) == *old(self),
            old(self).current_note matches Some(n) ==> {
                &&& final(self).current_note matches Some(m)
                &&& m.id == n.id
                &&& m.created_at == n.created_at
                &&& m.content@ == content@
                &&& m.title@ == title_of(content@)
                &&& m.updated_at == now
                &&& final(self).save_status == SaveStatus::Modified
                &&& final(self).notes == old(self).notes
                &&& final(self).deleted_note == old(self).deleted_note
                &&& final(self).storage == old(self).storage
                &&& same_flags(*old(self), *final(self))
            },
    {
        match &mut self.current_note {
            Some(note) => {
                note.content = content;
                note.extract_title();
                note.touch_at(now);
            },
            None => {
                return;
            },
        }
        self.save_status = SaveStatus::Modified;
    }

    /// Applies an edit to the open note: the content is replaced, the title
    /// is re-derived from it, the update stamp advances to the clock's
    /// current reading, and the status becomes `Modified`. Storage is not
    /// touched — persistence is the debounced saver's business. With no note
    /// open, nothing happens.
    pub fn update_content(&mut self, content: String)
        requires
            old(self).wf(),
        ensures
            final(self).wf(),
            old(self).current_note is None ==> *final(self) == *old(self),
            old(self).current_note matches Some(n) ==> {
                &&& final(self).current_note matches Some(m)
                &&& m.id == n.id
                &&& m.created_at == n.created_at
                &&& m.content@ == content@
                &&& m.title@ == title_of(content@)
                &&& final(self).save_status == SaveStatus::Modified
                &&& final(self).notes == old(self).notes
                &&& final(self).deleted_note == old(self).deleted_note
                &&& final(self).storage == old(self).storage
                &&& same_flags(*old(self), *final(self))
            },
    {
        let now = crate::note::now_millis();
        self.update_content_at(content, now);
    }

    /// Persists the open note: status `Saving` while the attempt runs, then
    /// `Saved` with the listing refreshed, or `Error` with the note's
    /// content untouched so nothing is lost. With no note open, nothing
    /// happens.
    pub fn save_current_note(&mut self)
        requires
            old(self).wf(),
        ensures
            final(self).wf(),
            save_done(*old(self), *final(self)),
    {
        let ok: bool;
        match &self.current_note {
            Some(note) => {
                self.save_status = SaveStatus::Saving;
                let r = self.storage.save_note(note);
                ok = r.is_ok();
            },
            None => {
                return;
            },
        }
        if ok {
            self.save_status = SaveStatus::Saved;
            self.load_notes();
        } else {
            self.save_status = SaveStatus::Error;
        }
    }

    /// Saves the open note, then loads `id` and makes it current with status
    /// `Saved`; when `id` does not resolve, no note is current afterwards.
    pub fn select_note(&mut self, id: &str)
        requires
            old(self).wf(),
        ensures
            final(self).wf(),
            select_done(*old(self), *final(self), id@),
    {
        self.save_current_note();
        match self.storage.load_note(id) {
            Some(note) => {
                self.current_note = Some(note);
                self.save_status = SaveStatus::Saved;
            },
            None => {
                self.current_note = None;
            },
        }
    }

    /// Saves whatever is open, then makes and persists a fresh empty note
    /// and, on success, opens it with status `Saved`. The previous note is
    /// never silently lost: when its save fails, creation is abandoned and
    /// the note stays open with status `Error`.
    pub fn create_note(&mut self)
        requires
            old(self).wf(),
        ensures
            final(self).wf(),
            create_done(*old(self), *final(self)),
    {
        self.save_current_note();
        if self.current_note.is_some() && self.save_status == SaveStatus::Error {
            return;
        }
        let note = crate::note::Note::new();
        match &self.current_note {
            Some(open) => {
                // a fresh id that collided with the open note's would
                // overwrite what was just saved
                if open.id == note.id {
                    return;
                }
            },
            None => {},
        }
        let r = self.storage.save_note(&note);
        match r {
            Ok(_) => {
                self.load_notes();
                match self.storage.load_note(note.id.as_str()) {
                    Some(n) => {
                        self.current_note = Some(n);
                        self.save_status = SaveStatus::Saved;
                        proof {
                            if old(self).storage.modeled() {
                                assert(created_fresh(*old(self), *self, note));
                            }
                        }
                    },
                    None => {},
                }
            },
            Err(_) => {},
        }
    }

    /// Deletes the open note from storage; on success it moves into the undo
    /// slot, the listing is refreshed, and the newest remaining note (if
    /// any) is selected. On failure nothing changes — no note is lost and no
    /// phantom deletion is shown. With no note open, nothing happens.
    pub fn delete_current_note(&mut self)
        requires
            old(self).wf(),
        ensures
            final(self).wf(),
            delete_post(*old(self), *final(self)),
    {
        let cur = self.current_note.take();
        match cur {
            Some(note) => {
                let r = self.storage.delete_note(note.id.as_str());
                match r {
                    Ok(_) => {
                        self.deleted_note = Some(note);
                        self.load_notes();
                        if self.notes.len() > 0 {
                            let first_id = self.notes[0].id.clone();
                            self.select_note(first_id.as_str());
                        }
                    },
                    Err(_) => {
                        self.current_note = Some(note);
                    },
                }
            },
            None => {},
        }
    }

    /// Restores the pending soft-deleted note: persists it again, clears the
    /// undo slot, refreshes the listing and re-selects it. On failure
    /// nothing changes. With nothing pending, nothing happens.
    pub fn undo_delete(&mut self)
        requires
            old(self).wf(),
        ensures
            final(self).wf(),
            undo_post(*old(self), *final(self)),
    {
        let pending = self.deleted_note.take();
        match pending {
            Some(note) => {
                let r = self.storage.save_note(&note);
                match r {
                    Ok(_) => {
                        self.load_notes();
                        self.select_note(note.id.as_str());
                    },
                    Err(_) => {
                        self.deleted_note = Some(note);
                    },
                }
            },
            None => {},
        }
    }

    /// Discards the pending undo slot without restoring; this is how the
    /// undo window expires.
    pub fn clear_deleted_note(&mut self)
        requires
            old(self).wf(),
        ensures
            final(self).wf(),
            final(self).deleted_note is None,
            final(self).notes == old(self).notes,
            final(self).current_note == old(self).current_note,
            final(self).save_status == old(self).save_status,
            final(self).storage == old(self).storage,
            same_flags(*old(self), *final(self)),
    {
        self.deleted_note = None;
    }

    /// Flips sidebar visibility; nothing else changes.
    pub fn toggle_sidebar(&mut self)
        requires
            old(self).wf(),
        ensures
            final(self).wf(),
            final(self).is_sidebar_visible == !old(self).is_sidebar_visible,
            final(self).is_outline_visible == old(self).is_outline_visible,
            final(self).is_preview_visible == old(self).is_preview_visible,
            final(self).is_focus_mode == old(self).is_focus_mode,
            final(self).notes == old(self).notes,
            final(self).current_note == old(self).current_note,
            final(self).deleted_note == old(self).deleted_note,
            final(self).save_status == old(self).save_status,
            final(self).storage == old(self).storage,
    {
        self.is_sidebar_visible = !self.is_sidebar_visible;
    }

    /// Flips outline visibility; nothing else changes.
    pub fn toggle_outline(&mut self)
        requires
            old(self).wf(),
        ensures
            final(self).wf(),
            final(self).is_outline_visible == !old(self).is_outline_visible,
            final(self).is_sidebar_visible == old(self).is_sidebar_visible,
            final(self).is_preview_visible == old(self).is_preview_visible,
            final(self).is_focus_mode == old(self).is_focus_mode,
            final(self).notes == old(self).notes,
            final(self).current_note == old(self).current_note,
            final(self).deleted_note == old(self).deleted_note,
            final(self).save_status == old(self).save_status,
            final(self).storage == old(self).storage,
    {
        self.is_outline_visible = !self.is_outline_visible;
    }

    /// Flips preview visibility; nothing else changes.
    pub fn toggle_preview(&mut self)
        requires
            old(self).wf(),
        ensures
            final(self).wf(),
            final(self).is_preview_visible == !old(self).is_preview_visible,
            final(self).is_sidebar_visible == old(self).is_sidebar_visible,
            final(self).is_outline_visible == old(self).is_outline_visible,
            final(self).is_focus_mode == old(self).is_focus_mode,
            final(self).notes == old(self).notes,
            final(self).current_note == old(self).current_note,
            final(self).deleted_note == old(self).deleted_note,
            final(self).save_status == old(self).save_status,
            final(self).storage == old(self).storage,
    {
        self.is_preview_visible = !self.is_preview_visible;
    }

    /// Flips focus mode; nothing else changes.
    pub fn toggle_focus_mode(&mut self)
        requires
            old(self).wf(),
        ensures
            final(self).wf(),
            final(self).is_focus_mode == !old(self).is_focus_mode,
            final(self).is_sidebar_visible == old(self).is_sidebar_visible,
            final(self).is_outline_visible == old(self).is_outline_visible,
            final(self).is_preview_visible == old(self).is_preview_visible,
            final(self).notes == old(self).notes,
            final(self).current_note == old(self).current_note,
            final(self).deleted_note == old(self).deleted_note,
            final(self).save_status == old(self).save_status,
            final(self).storage == old(self).storage,
    {
        self.is_focus_mode = !self.is_focus_mode;
    }
}

/// Law: over a modeled store that does not refuse writes, soft-deleting the
/// open note and then calling undo restores the very note — same id, title,
/// content and timestamps — and its summary reappears in the listing.
pub proof fn lemma_soft_delete_undo_round_trip<S: StorageBackend>(
    s0: AppState<S>,
    s1: AppState<S>,
    s2: AppState<S>,
    n: Note,
)
    requires
        s0.storage.modeled(),
        !s0.storage.writes_fail(),
        s0.current_note == Some(n),
        delete_post(s0, s1),
        undo_post(s1, s2),
    ensures
        s1.deleted_note == Some(n),
        s2.current_note == Some(n),
        exists|i: int| 0 <= i < s2.notes@.len() && (#[trigger] s2.notes@[i].id@) == n.id@,
{
    assert(delete_applied(s0, s1, n));
    assert(undo_applied(s1, s2, n));
    // after the delete, n's id is out of the store, so any auto-selected note
    // carries another id; the undo therefore re-inserts n unshadowed.
    let c1 = s1.storage.contents();
    assert(!c1.dom().contains(n.id@));
    match s1.current_note {
        Some(m) => {
            assert(c1.dom().contains(m.id@));
            assert(m.id@ != n.id@);
            assert(s2.storage.contents()[n.id@] == n);
        },
        None => {
            assert(s2.storage.contents()[n.id@] == n);
        },
    }
    assert(s2.current_note matches Some(m2) && m2 == n);
    assert(s2.storage.contents().dom().contains(n.id@));
    assert(summaries_match(s2.notes@, s2.storage.contents()));
}

/// Law: over a modeled store that does not refuse writes, deleting the open
/// note while exactly one other note remains makes that other note current
/// automatically, with status `Saved` and the listing holding exactly it.
pub proof fn lemma_delete_then_autoselect<S: StorageBackend>(
    s0: AppState<S>,
    s1: AppState<S>,
    n: Note,
    other_id: Seq<char>,
)
    requires
        s0.storage.modeled(),
        !s0.storage.writes_fail(),
        s0.current_note == Some(n),
        delete_post(s0, s1),
        s0.storage.contents().dom() == set![n.id@, other_id],
        other_id != n.id@,
    ensures
        s1.deleted_note == Some(n),
        s1.save_status == SaveStatus::Saved,
        s1.current_note matches Some(m) && m.id@ == other_id && m == s1.storage.contents()[
            other_id
        ],
        s1.notes@.len() == 1 && s1.notes@[0].id@ == other_id,
{
    assert(delete_applied(s0, s1, n));
    let c1 = s1.storage.contents();
    assert(c1.dom() =~= set![other_id]);
    assert(c1.dom().contains(other_id));
    let i = choose|i: int| 0 <= i < s1.notes@.len() && (#[trigger] s1.notes@[i].id@) == other_id;
    assert(s1.notes@.len() > 0);
    assert(s1.current_note is Some);
    match s1.current_note {
        Some(m) => {
            assert(m.id@ == s1.notes@[0].id@);
            assert(c1.dom().contains(s1.notes@[0].id@));
            assert(s1.notes@[0].id@ == other_id);
        },
        None => {},
    }
    // every listed id lies in the one-element domain, and ids are distinct,
    // so the listing holds exactly the one remaining summary
    assert(s1.notes@.len() == 1) by {
        if s1.notes@.len() > 1 {
            assert(c1.dom().contains(s1.notes@[0].id@));
            assert(c1.dom().contains(s1.notes@[1].id@));
            assert(s1.notes@[0].id@ == other_id && s1.notes@[1].id@ == other_id);
            assert(false);
        }
    }
}

/// Law: a save against a store that refuses writes fails, leaving the open
/// note — its content included — exactly as it was, the listing and store
/// untouched, and the error showing; once the store is willing again, a
/// second save of that very note succeeds, clears the error, and persists
/// precisely the preserved content. `mid` is the state between the two
/// attempts: the same aggregate over the mended store.
pub proof fn lemma_save_failure_preserves_content<S: StorageBackend>(
    s0: AppState<S>,
    s1: AppState<S>,
    mid: AppState<S>,
    s2: AppState<S>,
    n: Note,
)
    requires
        s0.current_note == Some(n),
        s0.storage.modeled(),
        s0.storage.writes_fail(),
        save_done(s0, s1),
        mid.current_note == s1.current_note,
        mid.notes == s1.notes,
        mid.deleted_note == s1.deleted_note,
        mid.save_status == s1.save_status,
        mid.storage.modeled(),
        !mid.storage.writes_fail(),
        mid.storage.contents() == s1.storage.contents(),
        save_done(mid, s2),
    ensures
        s1.save_status == SaveStatus::Error,
        s1.current_note == Some(n),
        s1.notes == s0.notes,
        s1.storage.contents() == s0.storage.contents(),
        s2.save_status == SaveStatus::Saved,
        s2.current_note == Some(n),
        s2.storage.contents() == s0.storage.contents().insert(n.id@, n),
        summaries_match(s2.notes@, s2.storage.contents()),
{
}

} // verus!
