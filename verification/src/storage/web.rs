//! The browser-local-key-value store: one entry per note under
//! `argo_note_<id>`, and an ordered-id index under `argo_notes_index`, since
//! the medium has no native listing. The index upkeep, the record codec and
//! the listing order are verified; only the raw get/set/delete of strings is
//! trusted to the browser.

use crate::note::{Note, NoteSummary};
use crate::storage::{summaries_from_texts, StorageBackend, StorageError};
use gloo_storage::Storage;
use vstd::prelude::*;

verus! {

/// The browser-local-key-value note store.
#[derive(Debug)]
pub struct WebStorage {}

/// Relies on `gloo_storage::LocalStorage::get::<String>`: the string stored
/// under the key, or nothing when the key is absent or its entry does not
/// read back as a string. Needs a browser's local storage at run time.
#[verifier::external_body]
fn kv_get(key: &str) -> (r: Option<String>) {
    gloo_storage::LocalStorage::get::<String>(key).ok()
}

/// Relies on `gloo_storage::LocalStorage::set::<&str>`: stores the string
/// under the key; a failure comes back as a value. Needs a browser's local
/// storage at run time.
#[verifier::external_body]
fn kv_set(key: &str, value: &str) -> (r: Result<(), StorageError>) {
    match gloo_storage::LocalStorage::set(key, value) {
        Ok(()) => Ok(()),
        Err(e) => Err(StorageError { message: e.to_string() }),
    }
}

/// Relies on `gloo_storage::LocalStorage::delete`: removes the entry under
/// the key, if any. Needs a browser's local storage at run time.
#[verifier::external_body]
fn kv_delete(key: &str) {
    gloo_storage::LocalStorage::delete(key)
}

/// Whether some entry of `ids` reads as `id`.
fn contains_id(ids: &Vec<String>, id: &str) -> (r: bool)
    ensures
        r == ids.deep_view().contains(id@),
{
    let key = id.to_owned();
    let mut i: usize = 0;
    while i < ids.len()
        invariant
            i <= ids@.len(),
            key@ == id@,
            forall|k: int| 0 <= k < i ==> ids@[k]@ != id@,
        decreases ids@.len() - i,
    {
        if ids[i] == key {
            proof {
                assert(ids.deep_view()[i as int] == id@);
            }
            return true;
        }
        i += 1;
    }
    proof {
        assert(forall|k: int|
            0 <= k < ids.deep_view().len() ==> ids.deep_view()[k] != id@);
    }
    false
}

/// `ids` with every occurrence of `id` removed, order kept.
pub open spec fn without_id(ids: Seq<Seq<char>>, id: Seq<char>) -> Seq<Seq<char>> {
    ids.filter(|x: Seq<char>| x != id)
}

/// `ids` with `id` appended when it was absent, unchanged when present.
pub open spec fn with_id(ids: Seq<Seq<char>>, id: Seq<char>) -> Seq<Seq<char>> {
    if ids.contains(id) {
        ids
    } else {
        ids.push(id)
    }
}

/// Appends `id` to `ids` when it is absent; reports whether it was added.
fn add_id(ids: &mut Vec<String>, id: &str) -> (added: bool)
    ensures
        final(ids).deep_view() == with_id(old(ids).deep_view(), id@),
        added == !old(ids).deep_view().contains(id@),
{
    if contains_id(ids, id) {
        false
    } else {
        let ghost pre = ids.deep_view();
        ids.push(id.to_owned());
        proof {
            assert(ids.deep_view() =~= pre.push(id@));
        }
        true
    }
}

/// Drops every occurrence of `id` from `ids`, keeping the order.
fn remove_id(ids: &Vec<String>, id: &str) -> (r: Vec<String>)
    ensures
        r.deep_view() == without_id(ids.deep_view(), id@),
{
    let ghost dv = ids.deep_view();
    let key = id.to_owned();
    let mut kept: Vec<String> = Vec::new();
    let mut i: usize = 0;
    while i < ids.len()
        invariant
            i <= ids@.len(),
            key@ == id@,
            dv == ids.deep_view(),
            dv.len() == ids@.len(),
            forall|k: int| 0 <= k < dv.len() ==> dv[k] == ids@[k]@,
            kept.deep_view() == without_id(dv.take(i as int), id@),
        decreases ids@.len() - i,
    {
        let ghost pre = kept.deep_view();
        if !(ids[i] == key) {
            let entry = ids[i].clone();
            kept.push(entry);
            proof {
                assert(kept.deep_view() =~= pre.push(dv[i as int]));
            }
        }
        proof {
            reveal_with_fuel(Seq::<_>::filter, 2);
            assert(dv.take(i + 1).drop_last() =~= dv.take(i as int));
            assert(dv.take(i + 1).last() == dv[i as int]);
            if dv[i as int] != id@ {
                assert(without_id(dv.take(i + 1), id@) == without_id(dv.take(i as int), id@).push(
                    dv[i as int],
                ));
            } else {
                assert(without_id(dv.take(i + 1), id@) == without_id(dv.take(i as int), id@));
            }
        }
        i += 1;
    }
    proof {
        assert(dv.take(dv.len() as int) =~= dv);
    }
    kept
}

impl WebStorage {
    /// A handle on the browser's local note store.
    pub fn new() -> (r: WebStorage) {
        WebStorage {  }
    }

    /// The medium key of the note entry for the given id.
    pub fn note_key(id: &str) -> (r: String)
        ensures
            r@ == "argo_note_"@ + id@,
    {
        let mut s = String::from_str("argo_note_");
        s.append(id);
        s
    }

    /// The ordered-id index as the medium holds it now; an absent or
    /// unreadable index reads as empty.
    fn load_index(&self) -> (r: Vec<String>) {
        match kv_get("argo_notes_index") {
            Some(text) => match crate::codec::parse_index(text.as_str()) {
                Some(ids) => ids,
                None => Vec::new(),
            },
            None => Vec::new(),
        }
    }

    /// Writes the ordered-id index back to the medium.
    fn save_index(&self, ids: &Vec<String>) {
        let text = crate::codec::encode_index(ids);
        let _ = kv_set("argo_notes_index", text.as_str());
    }
}

impl Default for WebStorage {
    /// A handle on the browser's local note store.
    fn default() -> (r: Self) {
        WebStorage::new()
    }
}

impl StorageBackend for WebStorage {
    /// The handle carries no state of its own.
    open spec fn inv(&self) -> bool {
        true
    }

    /// The medium lives outside the program, so its contents are not visible
    /// to reasoning.
    open spec fn modeled(&self) -> bool {
        false
    }

    open spec fn contents(&self) -> Map<Seq<char>, Note> {
        Map::empty()
    }

    fn list_notes(&self) -> (r: Vec<NoteSummary>) {
        let ids = self.load_index();
        let mut texts: Vec<String> = Vec::new();
        let mut i: usize = 0;
        while i < ids.len()
            invariant
                i <= ids@.len(),
            decreases ids@.len() - i,
        {
            let key = WebStorage::note_key(ids[i].as_str());
            match kv_get(key.as_str()) {
                Some(t) => texts.push(t),
                None => {},
            }
            i += 1;
        }
        summaries_from_texts(&texts)
    }

    fn load_note(&self, id: &str) -> (r: Option<Note>) {
        let key = WebStorage::note_key(id);
        match kv_get(key.as_str()) {
            Some(text) => match crate::codec::parse_note(text.as_str()) {
                Some(n) => {
                    // an entry whose record carries another id is corrupt
                    let wanted = id.to_owned();
                    if n.id == wanted {
                        Some(n)
                    } else {
                        None
                    }
                },
                None => None,
            },
            None => None,
        }
    }

    fn save_note(&mut self, note: &Note) -> (r: Result<(), StorageError>) {
        let mut ids = self.load_index();
        let added = add_id(&mut ids, note.id.as_str());
        if added {
            self.save_index(&ids);
        }
        let key = WebStorage::note_key(note.id.as_str());
        let text = crate::codec::encode_note(note);
        kv_set(key.as_str(), text.as_str())
    }

    fn delete_note(&mut self, id: &str) -> (r: Result<(), StorageError>)
        ensures
            r is Ok,
    {
        let ids = self.load_index();
        let kept = remove_id(&ids, id);
        self.save_index(&kept);
        let key = WebStorage::note_key(id);
        kv_delete(key.as_str());
        Ok(())
    }
}

} // verus!
