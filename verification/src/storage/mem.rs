//! A verified in-memory note store: the reference model of the storage
//! interface. Its contents are fully visible to reasoning (`modeled`), so
//! everything the state manager does over it is pinned exactly; tests run
//! against it. A switch makes every write fail, the way a full or broken
//! medium would, so failure handling can be exercised.

use crate::note::{summary_of, Note, NoteSummary};
use crate::storage::{sort_summaries, StorageBackend, StorageError};
use vstd::prelude::*;

verus! {

/// The in-memory note store, and a switch that makes every write fail while
/// it is on.
pub struct MemoryStorage {
    notes: Vec<Note>,
    fail_writes: bool,
}

/// The stored notes keyed by id.
pub open spec fn notes_map(s: Seq<Note>) -> Map<Seq<char>, Note>
    decreases s.len(),
{
    if s.len() == 0 {
        Map::empty()
    } else {
        notes_map(s.drop_last()).insert(s.last().id@, s.last())
    }
}

/// No id occurs twice.
pub open spec fn distinct_ids(s: Seq<Note>) -> bool {
    forall|i: int, j: int| 0 <= i < j < s.len() ==> s[i].id@ != s[j].id@
}

/// An id is in the map exactly when some stored note carries it.
proof fn lemma_notes_map_dom(s: Seq<Note>, id: Seq<char>)
    ensures
        notes_map(s).dom().contains(id) <==> exists|k: int|
            0 <= k < s.len() && (#[trigger] s[k].id@) == id,
    decreases s.len(),
{
    if s.len() > 0 {
        lemma_notes_map_dom(s.drop_last(), id);
        if notes_map(s).dom().contains(id) {
            if id == s.last().id@ {
                assert(s[s.len() - 1].id@ == id);
            }
        }
        if exists|k: int| 0 <= k < s.len() && (#[trigger] s[k].id@) == id {
            let k = choose|k: int| 0 <= k < s.len() && (#[trigger] s[k].id@) == id;
            if k < s.len() - 1 {
                assert(s.drop_last()[k].id@ == id);
            }
        }
    }
}

/// Under distinct ids, the map holds each stored note under its id.
proof fn lemma_notes_map_index(s: Seq<Note>, i: int)
    requires
        distinct_ids(s),
        0 <= i < s.len(),
    ensures
        notes_map(s).dom().contains(s[i].id@),
        notes_map(s)[s[i].id@] == s[i],
    decreases s.len(),
{
    if i == s.len() - 1 {
    } else {
        lemma_notes_map_index(s.drop_last(), i);
        assert(s.drop_last()[i] == s[i]);
        assert(s[i].id@ != s.last().id@);
    }
}

/// Under distinct ids, removing a stored note removes exactly its key.
proof fn lemma_notes_map_remove(s: Seq<Note>, i: int)
    requires
        distinct_ids(s),
        0 <= i < s.len(),
    ensures
        notes_map(s.remove(i)) == notes_map(s).remove(s[i].id@),
    decreases s.len(),
{
    let id = s[i].id@;
    if i == s.len() - 1 {
        assert(s.remove(i) =~= s.drop_last());
        lemma_notes_map_dom(s.drop_last(), id);
        assert(forall|k: int|
            0 <= k < s.drop_last().len() ==> (#[trigger] s.drop_last()[k].id@) != id);
        assert(!notes_map(s.drop_last()).dom().contains(id));
        assert(notes_map(s.drop_last()).insert(id, s.last()).remove(id) =~= notes_map(
            s.drop_last(),
        ));
    } else {
        assert(s.remove(i).drop_last() =~= s.drop_last().remove(i));
        assert(s.remove(i).last() == s.last());
        assert(distinct_ids(s.drop_last()));
        assert(s.drop_last()[i] == s[i]);
        lemma_notes_map_remove(s.drop_last(), i);
        assert(notes_map(s.remove(i)) == notes_map(s.drop_last()).remove(id).insert(
            s.last().id@,
            s.last(),
        ));
        assert(id != s.last().id@);
        assert(notes_map(s.drop_last()).remove(id).insert(s.last().id@, s.last()) =~= notes_map(
            s,
        ).remove(id));
    }
}

impl MemoryStorage {
    /// The stored notes in storage order.
    pub closed spec fn stored(&self) -> Seq<Note> {
        self.notes@
    }

    /// An empty store whose writes succeed.
    pub fn new() -> (r: MemoryStorage)
        ensures
            r.inv(),
            r.modeled(),
            r.contents() == Map::<Seq<char>, Note>::empty(),
            !r.writes_fail(),
    {
        MemoryStorage { notes: Vec::new(), fail_writes: false }
    }

    /// Turns write failure on or off; the contents stay as they are.
    pub fn set_fail_writes(&mut self, fail: bool)
        ensures
            final(self).inv() == old(self).inv(),
            final(self).writes_fail() == fail,
            final(self).contents() == old(self).contents(),
            final(self).modeled(),
    {
        self.fail_writes = fail;
    }

    /// The index of the note with this id, if it is stored.
    fn find(&self, id: &str) -> (r: Option<usize>)
        ensures
            match r {
                Some(i) => i < self.notes@.len() && self.notes@[i as int].id@ == id@,
                None => forall|k: int|
                    0 <= k < self.notes@.len() ==> (#[trigger] self.notes@[k].id@) != id@,
            },
    {
        let key = id.to_owned();
        let mut i: usize = 0;
        while i < self.notes.len()
            invariant
                i <= self.notes@.len(),
                key@ == id@,
                forall|k: int| 0 <= k < i ==> (#[trigger] self.notes@[k].id@) != id@,
            decreases self.notes@.len() - i,
        {
            if self.notes[i].id == key {
                return Some(i);
            }
            i += 1;
        }
        None
    }
}

impl StorageBackend for MemoryStorage {
    /// Stored ids are never repeated.
    closed spec fn inv(&self) -> bool {
        distinct_ids(self.notes@)
    }

    /// The whole store is in memory, so its contents are visible.
    open spec fn modeled(&self) -> bool {
        true
    }

    /// Writes fail exactly while the failure switch is on.
    closed spec fn writes_fail(&self) -> bool {
        self.fail_writes
    }

    closed spec fn contents(&self) -> Map<Seq<char>, Note> {
        notes_map(self.notes@)
    }

    fn list_notes(&self) -> (r: Vec<NoteSummary>) {
        broadcast use vstd::seq_lib::group_to_multiset_ensures;

        let mut collected: Vec<NoteSummary> = Vec::new();
        let mut i: usize = 0;
        while i < self.notes.len()
            invariant
                i <= self.notes@.len(),
                collected@.len() == i,
                forall|k: int|
                    0 <= k < i ==> #[trigger] collected@[k] == summary_of(self.notes@[k]),
            decreases self.notes@.len() - i,
        {
            let s = self.notes[i].summary();
            collected.push(s);
            i += 1;
        }
        let r = sort_summaries(collected);
        proof {
            let s = self.notes@;
            let c = collected@;
            assert forall|k: int| 0 <= k < r@.len() implies notes_map(s).dom().contains(
                #[trigger] r@[k].id@,
            ) && r@[k] == summary_of(notes_map(s)[r@[k].id@]) by {
                assert(r@.to_multiset().count(r@[k]) > 0);
                assert(c.contains(r@[k]));
                let t = choose|t: int| 0 <= t < c.len() && c[t] == r@[k];
                lemma_notes_map_index(s, t);
            }
            assert forall|a: int, b: int| 0 <= a < b < r@.len() implies (#[trigger] r@[a].id@)
                != (#[trigger] r@[b].id@) by {
                assert(c.to_multiset().count(r@[a]) == r@.to_multiset().count(r@[a]));
                if r@[a] == r@[b] {
                    lemma_count_two(r@, a, b);
                    lemma_count_le_one(s, c, r@[a]);
                    assert(false);
                } else {
                    assert(r@.contains(r@[a]));
                    assert(r@.to_multiset().count(r@[a]) > 0);
                    assert(c.contains(r@[a]));
                    assert(r@.contains(r@[b]));
                    assert(r@.to_multiset().count(r@[b]) > 0);
                    assert(c.to_multiset().count(r@[b]) > 0);
                    assert(c.contains(r@[b]));
                    let ta = choose|t: int| 0 <= t < c.len() && c[t] == r@[a];
                    let tb = choose|t: int| 0 <= t < c.len() && c[t] == r@[b];
                    assert(ta != tb);
                    if r@[a].id@ == r@[b].id@ {
                        assert(s[ta].id@ == s[tb].id@);
                        assert(false);
                    }
                }
            }
            assert forall|id: Seq<char>| #[trigger]
                notes_map(s).dom().contains(id) implies exists|k: int|
                0 <= k < r@.len() && (#[trigger] r@[k].id@) == id by {
                lemma_notes_map_dom(s, id);
                let t = choose|t: int| 0 <= t < s.len() && (#[trigger] s[t].id@) == id;
                assert(c[t] == summary_of(s[t]));
                assert(c.contains(c[t]));
                assert(r@.to_multiset().count(c[t]) > 0);
                assert(r@.contains(c[t]));
                let k = choose|k: int| 0 <= k < r@.len() && r@[k] == c[t];
                assert(r@[k].id@ == id);
            }
        }
        r
    }

    fn load_note(&self, id: &str) -> (r: Option<Note>) {
        match self.find(id) {
            Some(i) => {
                proof {
                    lemma_notes_map_index(self.notes@, i as int);
                }
                Some(self.notes[i].clone())
            },
            None => {
                proof {
                    lemma_notes_map_dom(self.notes@, id@);
                }
                None
            },
        }
    }

    fn save_note(&mut self, note: &Note) -> (r: Result<(), StorageError>) {
        if self.fail_writes {
            return Err(StorageError { message: String::from_str("write refused") });
        }
        let ghost s0 = self.notes@;
        match self.find(note.id.as_str()) {
            Some(i) => {
                proof {
                    lemma_notes_map_remove(s0, i as int);
                }
                let _ = self.notes.remove(i);
                self.notes.push(note.clone());
                proof {
                    let s1 = s0.remove(i as int);
                    assert(self.notes@ =~= s1.push(*note));
                    assert(self.notes@.drop_last() =~= s1);
                    assert forall|k: int| 0 <= k < s1.len() implies (#[trigger] s1[k].id@)
                        != note.id@ by {
                        if k < i as int {
                            assert(s1[k] == s0[k]);
                        } else {
                            assert(s1[k] == s0[k + 1]);
                        }
                    }
                    lemma_notes_map_dom(s1, note.id@);
                    assert(distinct_ids(s1));
                    assert(distinct_ids(self.notes@)) by {
                        assert forall|a: int, b: int|
                            0 <= a < b < self.notes@.len() implies self.notes@[a].id@
                            != self.notes@[b].id@ by {
                            if b == self.notes@.len() - 1 {
                                assert(self.notes@[a] == s1[a]);
                            } else {
                                assert(self.notes@[a] == s1[a]);
                                assert(self.notes@[b] == s1[b]);
                            }
                        }
                    }
                    assert(notes_map(self.notes@) =~= notes_map(s0).insert(note.id@, *note));
                }
            },
            None => {
                self.notes.push(note.clone());
                proof {
                    assert(self.notes@.drop_last() =~= s0);
                    assert(distinct_ids(self.notes@)) by {
                        assert forall|a: int, b: int|
                            0 <= a < b < self.notes@.len() implies self.notes@[a].id@
                            != self.notes@[b].id@ by {
                            if b == self.notes@.len() - 1 {
                                assert(self.notes@[a] == s0[a]);
                                assert(self.notes@[b] == *note);
                            } else {
                                assert(self.notes@[a] == s0[a]);
                                assert(self.notes@[b] == s0[b]);
                            }
                        }
                    }
                    assert(notes_map(self.notes@) =~= notes_map(s0).insert(note.id@, *note));
                }
            },
        }
        Ok(())
    }

    fn delete_note(&mut self, id: &str) -> (r: Result<(), StorageError>) {
        if self.fail_writes {
            return Err(StorageError { message: String::from_str("write refused") });
        }
        let ghost s0 = self.notes@;
        match self.find(id) {
            Some(i) => {
                proof {
                    lemma_notes_map_remove(s0, i as int);
                }
                let _ = self.notes.remove(i);
                proof {
                    assert(distinct_ids(self.notes@)) by {
                        assert forall|a: int, b: int|
                            0 <= a < b < self.notes@.len() implies self.notes@[a].id@
                            != self.notes@[b].id@ by {
                            let a0 = if a < i as int { a } else { a + 1 };
                            let b0 = if b < i as int { b } else { b + 1 };
                            assert(self.notes@[a] == s0[a0]);
                            assert(self.notes@[b] == s0[b0]);
                        }
                    }
                }
            },
            None => {
                proof {
                    lemma_notes_map_dom(s0, id@);
                    assert(notes_map(s0).remove(id@) =~= notes_map(s0));
                }
            },
        }
        Ok(())
    }
}

/// A value standing at two places counts at least twice.
proof fn lemma_count_two(r: Seq<NoteSummary>, a: int, b: int)
    requires
        0 <= a < b < r.len(),
        r[a] == r[b],
    ensures
        r.to_multiset().count(r[a]) >= 2,
{
    broadcast use vstd::seq_lib::group_to_multiset_ensures;

    let r1 = r.remove(a);
    assert(r1.to_multiset() == r.to_multiset().remove(r[a]));
    assert(r1[b - 1] == r[b]);
    assert(r1.contains(r[a]));
    assert(r1.to_multiset().count(r[a]) > 0);
    assert(r.to_multiset().count(r[a]) == r1.to_multiset().count(r[a]) + 1);
}

/// Summaries of distinct-id notes hold any one value at most once.
proof fn lemma_count_le_one(s: Seq<Note>, c: Seq<NoteSummary>, x: NoteSummary)
    requires
        distinct_ids(s),
        c.len() == s.len(),
        forall|k: int| 0 <= k < c.len() ==> #[trigger] c[k] == summary_of(s[k]),
    ensures
        c.to_multiset().count(x) <= 1,
{
    broadcast use vstd::seq_lib::group_to_multiset_ensures;

    assert(forall|i: int, j: int| 0 <= i < j < c.len() ==> c[i] != c[j]) by {
        assert forall|i: int, j: int| 0 <= i < j < c.len() implies c[i] != c[j] by {
            assert(s[i].id@ != s[j].id@);
        }
    }
    c.lemma_multiset_has_no_duplicates();
}

} // verus!
