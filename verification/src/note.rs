//! The note entity: a persisted markdown document with a derived title, its
//! list projection, and the save-status enumeration for the currently open
//! note.

use crate::title::{title_of, untitled};
use vstd::prelude::*;

verus! {

/// Transient persistence state of the currently open note; not persisted.
#[derive(Debug, Clone, Copy, PartialEq, Eq, Structural, Default)]
pub enum SaveStatus {
    #[default]
    Saved,
    Saving,
    Modified,
    Error,
}

/// A persisted markdown document. The title is always derived from the
/// content (see `crate::title::title_of`), and `updated_at` advances on every
/// content mutation.
#[derive(Debug, PartialEq)]
pub struct Note {
    pub id: String,
    pub title: String,
    pub content: String,
    pub created_at: i64,
    pub updated_at: i64,
}

/// A read-only projection of a note for list display; always derived from a
/// note at listing time, never independently mutated.
#[derive(Debug, PartialEq)]
pub struct NoteSummary {
    pub id: String,
    pub title: String,
    pub updated_at: i64,
}

/// The list projection of a note.
pub open spec fn summary_of(n: Note) -> NoteSummary {
    NoteSummary { id: n.id, title: n.title, updated_at: n.updated_at }
}

impl Clone for Note {
    fn clone(&self) -> (r: Self)
        ensures
            r == *self,
    {
        Note {
            id: self.id.clone(),
            title: self.title.clone(),
            content: self.content.clone(),
            created_at: self.created_at,
            updated_at: self.updated_at,
        }
    }
}

impl Clone for NoteSummary {
    fn clone(&self) -> (r: Self)
        ensures
            r == *self,
    {
        NoteSummary {
            id: self.id.clone(),
            title: self.title.clone(),
            updated_at: self.updated_at,
        }
    }
}

/// Relies on `uuid::Uuid::new_v4` and its `to_string`: a freshly generated
/// random identifier in the hyphenated form, which is 36 characters long.
/// Nothing else is assumed of it; in particular not uniqueness.
#[verifier::external_body]
fn fresh_id() -> (r: String)
    ensures
        r@.len() == 36,
{
    uuid::Uuid::new_v4().to_string()
}

/// Relies on `chrono::Utc::now` and `DateTime::timestamp_millis`: the clock's
/// current reading as milliseconds since the Unix epoch. Nothing is assumed
/// of the value.
#[verifier::external_body]
pub fn now_millis() -> (t: i64) {
    chrono::Utc::now().timestamp_millis()
}

impl Note {
    /// A fresh empty note: a newly generated id, the fallback title, empty
    /// content, and equal creation and update stamps.
    pub fn new() -> (r: Note)
        ensures
            r.id@.len() == 36,
            r.title@ == untitled(),
            r.content@ == Seq::<char>::empty(),
            r.title@ == title_of(r.content@),
            r.created_at == r.updated_at,
    {
        let now = now_millis();
        let note = Note {
            id: fresh_id(),
            title: crate::title::untitled_string(),
            content: String::new(),
            created_at: now,
            updated_at: now,
        };
        note
    }

    /// Recomputes the displayed title from the current content; nothing else
    /// changes.
    pub fn extract_title(&mut self)
        ensures
            final(self).title@ == title_of(old(self).content@),
            final(self).content == old(self).content,
            final(self).id == old(self).id,
            final(self).created_at == old(self).created_at,
            final(self).updated_at == old(self).updated_at,
    {
        self.title = crate::title::extract_title_str(self.content.as_str());
    }

    /// Sets `updated_at` to the given stamp; nothing else changes.
    pub fn touch_at(&mut self, now: i64)
        ensures
            final(self).updated_at == now,
            final(self).id == old(self).id,
            final(self).title == old(self).title,
            final(self).content == old(self).content,
            final(self).created_at == old(self).created_at,
    {
        self.updated_at = now;
    }

    /// Bumps `updated_at` to the clock's current reading; nothing else
    /// changes. The reading itself is whatever the clock returned — callers
    /// that need the stamp pinned use `touch_at`.
    pub fn touch(&mut self)
        ensures
            final(self).id == old(self).id,
            final(self).title == old(self).title,
            final(self).content == old(self).content,
            final(self).created_at == old(self).created_at,
    {
        let now = now_millis();
        self.touch_at(now);
    }

    /// The list projection of this note.
    pub fn summary(&self) -> (r: NoteSummary)
        ensures
            r == summary_of(*self),
    {
        NoteSummary {
            id: self.id.clone(),
            title: self.title.clone(),
            updated_at: self.updated_at,
        }
    }
}

impl Default for Note {
    /// A fresh empty note, as `Note::new` makes one.
    fn default() -> (r: Self)
        ensures
            r.title@ == untitled(),
            r.content@ == Seq::<char>::empty(),
            r.created_at == r.updated_at,
    {
        Note::new()
    }
}

} // verus!
