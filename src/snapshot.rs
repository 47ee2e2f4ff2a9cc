use vstd::prelude::*;

use crate::table::{copy_bytes, keys_unique, lemma_table_all, lemma_table_at, lemma_table_insert, lemma_table_remove, lemma_table_update, table_map};
use crate::types::{DocRecord, SnapshotMap};

verus! {

/// A snapshot at timestamp `t` replaces the one of document `d`: there is
/// none yet, or the current one is not newer.
pub open spec fn snapshot_applies(m: SnapshotMap, d: Seq<char>, t: int) -> bool {
    !m.contains_key(d) || m[d].1 <= t
}

spec fn entries(rows: Seq<DocRecord>) -> Seq<(Seq<char>, (Seq<u8>, int))> {
    Seq::new(rows.len(), |i: int| (rows[i].doc_id@, (rows[i].data@, rows[i].timestamp as int)))
}

/// One compacted snapshot per document.
pub struct SnapshotStore {
    rows: Vec<DocRecord>,
}

impl View for SnapshotStore {
    type V = SnapshotMap;

    closed spec fn view(&self) -> SnapshotMap {
        table_map(entries(self.rows@))
    }
}

impl SnapshotStore {
    pub closed spec fn wf(&self) -> bool {
        keys_unique(entries(self.rows@))
    }

    pub fn new() -> (r: Self)
        ensures
            r.wf(),
            r@ == Map::<Seq<char>, (Seq<u8>, int)>::empty(),
    {
        let r = SnapshotStore { rows: Vec::new() };
        proof {
            assert(r@ =~= Map::<Seq<char>, (Seq<u8>, int)>::empty());
        }
        r
    }

    proof fn lemma_rows(&self)
        requires
            self.wf(),
        ensures
            forall|i: int|
                0 <= i < self.rows@.len() ==> self@.contains_key(#[trigger] self.rows@[i].doc_id@)
                    && self@[self.rows@[i].doc_id@] == (self.rows@[i].data@, self.rows@[i].timestamp as int),
            forall|d: Seq<char>|
                #[trigger] self@.contains_key(d) ==> exists|i: int|
                    0 <= i < self.rows@.len() && self.rows@[i].doc_id@ == d,
    {
        let e = entries(self.rows@);
        lemma_table_all(e);
        assert forall|i: int| 0 <= i < self.rows@.len() implies self@.contains_key(
            #[trigger] self.rows@[i].doc_id@,
        ) && self@[self.rows@[i].doc_id@] == (self.rows@[i].data@, self.rows@[i].timestamp as int) by {
            assert(e[i] == (self.rows@[i].doc_id@, (self.rows@[i].data@, self.rows@[i].timestamp as int)));
            lemma_table_at(e, i);
        }
        assert forall|d: Seq<char>| #[trigger] self@.contains_key(d) implies exists|i: int|
            0 <= i < self.rows@.len() && self.rows@[i].doc_id@ == d by {
            let i = choose|i: int| 0 <= i < e.len() && #[trigger] e[i].0 == d;
            assert(e[i].0 == self.rows@[i].doc_id@);
        }
    }

    fn find(&self, doc_id: &String) -> (r: Option<usize>)
        requires
            self.wf(),
        ensures
            match r {
                Some(i) => i < self.rows@.len() && self.rows@[i as int].doc_id@ == doc_id@
                    && self@.contains_key(doc_id@) && self@[doc_id@] == (
                    self.rows@[i as int].data@,
                    self.rows@[i as int].timestamp as int,
                ),
                None => !self@.contains_key(doc_id@),
            },
    {
        let mut i: usize = 0;
        while i < self.rows.len()
            invariant
                self.wf(),
                i <= self.rows@.len(),
                forall|j: int| 0 <= j < i ==> (#[trigger] self.rows@[j]).doc_id@ != doc_id@,
            decreases self.rows@.len() - i,
        {
            if self.rows[i].doc_id == *doc_id {
                proof {
                    self.lemma_rows();
                }
                return Some(i);
            }
            i = i + 1;
        }
        proof {
            self.lemma_rows();
        }
        None
    }

    /// The snapshot of one document, if it has one.
    pub fn get(&self, doc_id: &String) -> (r: Option<DocRecord>)
        requires
            self.wf(),
        ensures
            r is None <==> !self@.contains_key(doc_id@),
            r matches Some(rec) ==> rec.doc_id@ == doc_id@ && self@[doc_id@] == (
                rec.data@,
                rec.timestamp as int,
            ),
    {
        match self.find(doc_id) {
            Some(i) => Some(
                DocRecord {
                    doc_id: self.rows[i].doc_id.clone(),
                    data: copy_bytes(&self.rows[i].data),
                    timestamp: self.rows[i].timestamp,
                },
            ),
            None => None,
        }
    }

    /// Writes a snapshot unless the stored one is newer; tells whether it did.
    pub fn set(&mut self, snapshot: DocRecord) -> (applied: bool)
        requires
            old(self).wf(),
        ensures
            final(self).wf(),
            applied == snapshot_applies(old(self)@, snapshot.doc_id@, snapshot.timestamp as int),
            final(self)@ == if applied {
                old(self)@.insert(snapshot.doc_id@, (snapshot.data@, snapshot.timestamp as int))
            } else {
                old(self)@
            },
    {
        let ghost e0 = entries(self.rows@);
        let ghost kv = (snapshot.doc_id@, (snapshot.data@, snapshot.timestamp as int));
        match self.find(&snapshot.doc_id) {
            Some(i) => {
                if self.rows[i].timestamp <= snapshot.timestamp {
                    self.rows.set(i, snapshot);
                    proof {
                        assert(entries(self.rows@) =~= e0.update(i as int, (e0[i as int].0, kv.1)));
                        lemma_table_update(e0, i as int, kv.1);
                    }
                    true
                } else {
                    false
                }
            },
            None => {
                let p = self.rows.len();
                self.rows.push(snapshot);
                proof {
                    assert(entries(self.rows@) =~= e0.insert(p as int, kv));
                    lemma_table_insert(e0, p as int, kv.0, kv.1);
                }
                true
            },
        }
    }

    /// Removes the snapshot of one document, if any.
    pub fn delete(&mut self, doc_id: &String)
        requires
            old(self).wf(),
        ensures
            final(self).wf(),
            final(self)@ == old(self)@.remove(doc_id@),
    {
        match self.find(doc_id) {
            Some(i) => {
                let ghost e0 = entries(self.rows@);
                self.rows.remove(i);
                proof {
                    assert(entries(self.rows@) =~= e0.remove(i as int));
                    lemma_table_remove(e0, i as int);
                }
            },
            None => {
                proof {
                    assert(self@ =~= old(self)@.remove(doc_id@));
                }
            },
        }
    }

    /// Every document with a snapshot, each once.
    pub fn doc_ids(&self) -> (r: Vec<String>)
        requires
            self.wf(),
        ensures
            forall|i: int, j: int| 0 <= i < j < r@.len() ==> r@[i]@ != r@[j]@,
            forall|i: int| 0 <= i < r@.len() ==> self@.contains_key(#[trigger] r@[i]@),
            forall|d: Seq<char>|
                #[trigger] self@.contains_key(d) ==> exists|i: int| 0 <= i < r@.len() && r@[i]@ == d,
    {
        proof {
            self.lemma_rows();
        }
        let mut r: Vec<String> = Vec::new();
        let mut i: usize = 0;
        while i < self.rows.len()
            invariant
                self.wf(),
                i <= self.rows@.len(),
                r@.len() == i,
                forall|j: int| 0 <= j < i ==> (#[trigger] r@[j])@ == self.rows@[j].doc_id@,
            decreases self.rows@.len() - i,
        {
            r.push(self.rows[i].doc_id.clone());
            i = i + 1;
        }
        proof {
            let e = entries(self.rows@);
            assert forall|a: int, b: int| 0 <= a < b < r@.len() implies r@[a]@ != r@[b]@ by {
                assert(e[a].0 == self.rows@[a].doc_id@);
                assert(e[b].0 == self.rows@[b].doc_id@);
            }
            assert forall|d: Seq<char>| #[trigger] self@.contains_key(d) implies exists|a: int|
                0 <= a < r@.len() && r@[a]@ == d by {
                let a = choose|a: int| 0 <= a < self.rows@.len() && self.rows@[a].doc_id@ == d;
                assert(r@[a]@ == d);
            }
        }
        r
    }
}

} // verus!
