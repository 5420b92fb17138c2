//! The storage-backend abstraction: durable CRUD for notes, polymorphic over
//! a filesystem-backed store, a browser-local-key-value store, and a verified
//! in-memory model. Listing always returns summaries newest first and skips
//! unreadable entries instead of failing.

pub mod desktop;
pub mod mem;
pub mod web;

use crate::codec::parse_note_seq;
use crate::note::{summary_of, Note, NoteSummary};
use vstd::prelude::*;

verus! {

/// A failure to read, write or delete at the durable medium; always returned
/// as a value, never thrown.
#[derive(Debug)]
pub struct StorageError {
    pub message: String,
}

impl Clone for StorageError {
    fn clone(&self) -> (r: Self)
        ensures
            r == *self,
    {
        StorageError { message: self.message.clone() }
    }
}

impl StorageError {
    /// A description of the failure.
    pub fn message(&self) -> (r: &String)
        ensures
            r == &self.message,
    {
        &self.message
    }
}

/// Summaries ordered by update stamp, newest first.
pub open spec fn sorted_desc(s: Seq<NoteSummary>) -> bool {
    forall|i: int, j: int| 0 <= i < j < s.len() ==> s[i].updated_at >= s[j].updated_at
}

/// The views of the fields a summary is made of.
pub open spec fn summary_fields(s: NoteSummary) -> (Seq<char>, Seq<char>, int) {
    (s.id@, s.title@, s.updated_at as int)
}

/// The field views of each summary in a listing.
pub open spec fn fields_of(s: Seq<NoteSummary>) -> Seq<(Seq<char>, Seq<char>, int)> {
    s.map_values(|x: NoteSummary| summary_fields(x))
}

/// A listing matches a store's contents: every entry is the summary of the
/// note under its id, ids are not repeated, and every stored id appears.
pub open spec fn summaries_match(r: Seq<NoteSummary>, m: Map<Seq<char>, Note>) -> bool {
    &&& forall|i: int|
        0 <= i < r.len() ==> m.dom().contains(#[trigger] r[i].id@) && r[i] == summary_of(
            m[r[i].id@],
        )
    &&& forall|i: int, j: int|
        0 <= i < j < r.len() ==> #[trigger] r[i].id@ != #[trigger] r[j].id@
    &&& forall|id: Seq<char>|
        #[trigger] m.dom().contains(id) ==> exists|i: int|
            0 <= i < r.len() && (#[trigger] r[i].id@) == id
}

/// Sorts summaries by update stamp, newest first. The result holds exactly
/// the given summaries, as values and as field views.
pub fn sort_summaries(src: Vec<NoteSummary>) -> (r: Vec<NoteSummary>)
    ensures
        sorted_desc(r@),
        r@.to_multiset() == src@.to_multiset(),
        fields_of(r@).to_multiset() == fields_of(src@).to_multiset(),
{
    broadcast use vstd::seq_lib::group_to_multiset_ensures;
    broadcast use vstd::multiset::group_multiset_axioms;

    let ghost orig = src@;
    let mut rem = src;
    let mut out: Vec<NoteSummary> = Vec::new();
    while rem.len() > 0
        invariant
            sorted_desc(out@),
            forall|a: int, b: int|
                0 <= a < out@.len() && 0 <= b < rem@.len() ==> out@[a].updated_at
                    >= rem@[b].updated_at,
            out@.to_multiset().add(rem@.to_multiset()) =~= orig.to_multiset(),
            fields_of(out@).to_multiset().add(fields_of(rem@).to_multiset()) =~= fields_of(
                orig,
            ).to_multiset(),
        decreases rem@.len(),
    {
        let mut mi: usize = 0;
        let mut k: usize = 1;
        while k < rem.len()
            invariant
                rem@.len() > 0,
                mi < k <= rem@.len(),
                forall|t: int| 0 <= t < k ==> rem@[t].updated_at <= rem@[mi as int].updated_at,
            decreases rem@.len() - k,
        {
            if rem[k].updated_at > rem[mi].updated_at {
                mi = k;
            }
            k += 1;
        }
        let ghost rem0 = rem@;
        let ghost out0 = out@;
        let m = rem.remove(mi);
        out.push(m);
        proof {
            broadcast use vstd::seq_lib::group_to_multiset_ensures;
            broadcast use vstd::multiset::group_multiset_axioms;

            assert(rem0.contains(m));
            assert(rem0.to_multiset().count(m) > 0);
            assert(out0.push(m).to_multiset() =~= out0.to_multiset().insert(m));
            assert(rem0.remove(mi as int).to_multiset() =~= rem0.to_multiset().remove(m));
            assert(out@.to_multiset().add(rem@.to_multiset()) =~= orig.to_multiset());
            assert(fields_of(out@) =~= fields_of(out0).push(summary_fields(m)));
            assert(fields_of(rem@) =~= fields_of(rem0).remove(mi as int));
            assert(fields_of(rem0)[mi as int] == summary_fields(m));
            assert(fields_of(rem0).contains(summary_fields(m)));
            assert(fields_of(rem0).to_multiset().count(summary_fields(m)) > 0);
            assert(fields_of(out0).push(summary_fields(m)).to_multiset() =~= fields_of(
                out0,
            ).to_multiset().insert(summary_fields(m)));
            assert(fields_of(rem0).remove(mi as int).to_multiset() =~= fields_of(
                rem0,
            ).to_multiset().remove(summary_fields(m)));
            assert(fields_of(out@).to_multiset().add(fields_of(rem@).to_multiset()) =~= fields_of(
                orig,
            ).to_multiset());
        }
    }
    out
}

/// The field views of the summaries of the notes that parse, in the order of
/// their texts.
pub open spec fn parsed_summaries(texts: Seq<Seq<char>>) -> Seq<(Seq<char>, Seq<char>, int)>
    decreases texts.len(),
{
    if texts.len() == 0 {
        Seq::empty()
    } else {
        match parse_note_seq(texts[0]) {
            Some(f) => seq![(f.0, f.1, f.4)] + parsed_summaries(texts.drop_first()),
            None => parsed_summaries(texts.drop_first()),
        }
    }
}

/// Builds the listing from raw record texts: every readable record
/// contributes its summary, unreadable ones are skipped, and the result is
/// ordered newest first. This is the whole listing, never an error.
pub fn summaries_from_texts(texts: &Vec<String>) -> (r: Vec<NoteSummary>)
    ensures
        sorted_desc(r@),
        fields_of(r@).to_multiset() == parsed_summaries(texts.deep_view()).to_multiset(),
{
    broadcast use vstd::seq_lib::group_to_multiset_ensures;

    let ghost dv = texts.deep_view();
    let mut collected: Vec<NoteSummary> = Vec::new();
    let mut i: usize = 0;
    while i < texts.len()
        invariant
            i <= texts@.len(),
            dv == texts.deep_view(),
            dv.len() == texts@.len(),
            forall|k: int| 0 <= k < dv.len() ==> dv[k] == texts@[k]@,
            fields_of(collected@) == parsed_summaries(dv.take(i as int)),
        decreases texts@.len() - i,
    {
        let ghost pre = collected@;
        let parsed = crate::codec::parse_note(texts[i].as_str());
        match parsed {
            Some(n) => {
                let s = n.summary();
                collected.push(s);
                proof {
                    assert(fields_of(collected@) =~= fields_of(pre).push(summary_fields(s)));
                }
            },
            None => {},
        }
        proof {
            lemma_parsed_summaries_push(dv, i as int);
        }
        i += 1;
    }
    proof {
        assert(dv.take(dv.len() as int) =~= dv);
    }
    sort_summaries(collected)
}

/// Extending the texts by one extends the parsed summaries by that record's
/// summary, or by nothing when it does not parse.
proof fn lemma_parsed_summaries_push(texts: Seq<Seq<char>>, i: int)
    requires
        0 <= i < texts.len(),
    ensures
        parsed_summaries(texts.take(i + 1)) == match parse_note_seq(texts[i]) {
            Some(f) => parsed_summaries(texts.take(i)).push((f.0, f.1, f.4)),
            None => parsed_summaries(texts.take(i)),
        },
{
    lemma_parsed_summaries_append(texts.take(i), seq![texts[i]]);
    assert(texts.take(i + 1) =~= texts.take(i) + seq![texts[i]]);
    let single = seq![texts[i]];
    assert(single.drop_first() =~= Seq::<Seq<char>>::empty());
    assert(parsed_summaries(Seq::<Seq<char>>::empty()) == Seq::<(Seq<char>, Seq<char>, int)>::empty());
    match parse_note_seq(texts[i]) {
        Some(f) => {
            assert(parsed_summaries(single) =~= seq![(f.0, f.1, f.4)]);
            assert(parsed_summaries(texts.take(i)) + seq![(f.0, f.1, f.4)] =~= parsed_summaries(
                texts.take(i),
            ).push((f.0, f.1, f.4)));
        },
        None => {
            assert(parsed_summaries(single) =~= Seq::<(Seq<char>, Seq<char>, int)>::empty());
            assert(parsed_summaries(texts.take(i)) + parsed_summaries(single) =~= parsed_summaries(
                texts.take(i),
            ));
        },
    }
}

proof fn lemma_parsed_summaries_append(a: Seq<Seq<char>>, b: Seq<Seq<char>>)
    ensures
        parsed_summaries(a + b) == parsed_summaries(a) + parsed_summaries(b),
    decreases a.len(),
{
    if a.len() == 0 {
        assert(a + b =~= b);
        assert(parsed_summaries(a) + parsed_summaries(b) =~= parsed_summaries(b));
    } else {
        lemma_parsed_summaries_append(a.drop_first(), b);
        assert((a + b).drop_first() =~= a.drop_first() + b);
        assert((a + b)[0] == a[0]);
        match parse_note_seq(a[0]) {
            Some(f) => {
                assert(seq![(f.0, f.1, f.4)] + (parsed_summaries(a.drop_first()) + parsed_summaries(
                    b,
                )) =~= (seq![(f.0, f.1, f.4)] + parsed_summaries(a.drop_first()))
                    + parsed_summaries(b));
            },
            None => {},
        }
    }
}

/// Durable CRUD for notes. The two real media (filesystem, browser storage)
/// implement it behind their trusted calls; the in-memory model implements it
/// with fully visible contents (`modeled`).
pub trait StorageBackend: Sized {
    /// The backend's internal invariant; constructors establish it and every
    /// operation keeps it.
    open spec fn inv(&self) -> bool {
        true
    }

    /// Whether the backend's durable contents are visible to reasoning: true
    /// of the in-memory model, false of media outside the program.
    open spec fn modeled(&self) -> bool {
        false
    }

    /// Whether the backend currently refuses writes. A modeled backend that
    /// does not refuse them is bound to succeed; of media outside the
    /// program nothing is promised either way (the promise below is guarded
    /// on `modeled`).
    open spec fn writes_fail(&self) -> bool {
        false
    }

    /// The notes the backend holds, keyed by id, where `modeled` holds.
    open spec fn contents(&self) -> Map<Seq<char>, Note> {
        Map::empty()
    }

    /// Every persisted note as a summary, newest first; unreadable entries
    /// are skipped, never an error.
    fn list_notes(&self) -> (r: Vec<NoteSummary>)
        requires
            self.inv(),
        ensures
            sorted_desc(r@),
            self.modeled() ==> summaries_match(r@, self.contents()),
    ;

    /// The full note stored under `id`, or nothing when absent or unreadable.
    fn load_note(&self, id: &str) -> (r: Option<Note>)
        requires
            self.inv(),
        ensures
            r matches Some(n) ==> n.id@ == id@,
            self.modeled() ==> match r {
                Some(n) => self.contents().dom().contains(id@) && n == self.contents()[id@],
                None => !self.contents().dom().contains(id@),
            },
    ;

    /// Durably writes the note keyed by its id: one attempt, no retry, any
    /// failure reported as a value.
    fn save_note(&mut self, note: &Note) -> (r: Result<(), StorageError>)
        requires
            old(self).inv(),
        ensures
            final(self).inv(),
            final(self).modeled() == old(self).modeled(),
            final(self).writes_fail() == old(self).writes_fail(),
            old(self).modeled() && !old(self).writes_fail() ==> r is Ok,
            old(self).modeled() && old(self).writes_fail() ==> r is Err,
            old(self).modeled() && r is Ok ==> final(self).contents() == old(
                self,
            ).contents().insert(note.id@, *note),
            old(self).modeled() && r is Err ==> final(self).contents() == old(self).contents(),
    ;

    /// Removes the note under `id`; removing an absent id is not an error.
    fn delete_note(&mut self, id: &str) -> (r: Result<(), StorageError>)
        requires
            old(self).inv(),
        ensures
            final(self).inv(),
            final(self).modeled() == old(self).modeled(),
            final(self).writes_fail() == old(self).writes_fail(),
            old(self).modeled() && !old(self).writes_fail() ==> r is Ok,
            old(self).modeled() && old(self).writes_fail() ==> r is Err,
            old(self).modeled() && r is Ok ==> final(self).contents() == old(
                self,
            ).contents().remove(id@),
            old(self).modeled() && r is Err ==> final(self).contents() == old(self).contents(),
    ;
}

/// The storage backend a native build starts with: the filesystem-backed
/// store's path layout, rooted under the home directory.
pub fn create_storage() -> (r: desktop::DesktopStorage)
    ensures
        exists|prefix: Seq<char>| r.notes_dir@ == prefix + "/.argo/notes"@,
{
    desktop::DesktopStorage::new()
}

} // verus!
