use vstd::prelude::*;

use crate::table::{contains_string, copy_bytes, keys_unique, lemma_table_all, lemma_table_at, lemma_table_insert, lemma_table_remove, table_map};
use crate::types::{DocUpdate, UpdateMap};

verus! {

/// A batch of incoming updates, as values.
pub open spec fn batch_view(b: Seq<(i64, Vec<u8>)>) -> Seq<(int, Seq<u8>)> {
    Seq::new(b.len(), |i: int| (b[i].0 as int, b[i].1@))
}

/// Ingests a batch into the pending updates of document `d`, skipping every
/// (document, timestamp) already present; also gives how many were new.
pub open spec fn ingest(m: UpdateMap, d: Seq<char>, b: Seq<(int, Seq<u8>)>) -> (UpdateMap, nat)
    decreases b.len(),
{
    if b.len() == 0 {
        (m, 0)
    } else {
        let (m0, n0) = ingest(m, d, b.drop_last());
        let t = b.last().0;
        if m0.contains_key((d, t)) {
            (m0, n0)
        } else {
            (m0.insert((d, t), b.last().1), n0 + 1)
        }
    }
}

/// Removes the given timestamps of document `d` from the pending updates;
/// also gives how many were present.
pub open spec fn acknowledge(m: UpdateMap, d: Seq<char>, ts: Seq<int>) -> (UpdateMap, nat)
    decreases ts.len(),
{
    if ts.len() == 0 {
        (m, 0)
    } else {
        let (m0, n0) = acknowledge(m, d, ts.drop_last());
        let t = ts.last();
        if m0.contains_key((d, t)) {
            (m0.remove((d, t)), n0 + 1)
        } else {
            (m0, n0)
        }
    }
}

/// The pending updates with every one of document `d` left out.
pub open spec fn without_doc(m: UpdateMap, d: Seq<char>) -> UpdateMap {
    Map::new(|k: (Seq<char>, int)| m.contains_key(k) && k.0 != d, |k: (Seq<char>, int)| m[k])
}

/// Some update of document `d` is pending.
pub open spec fn has_pending(m: UpdateMap, d: Seq<char>) -> bool {
    exists|t: int| #[trigger] m.contains_key((d, t))
}

/// `r` lists the pending updates of document `d`, each once, by ascending timestamp.
pub open spec fn lists_doc_updates(m: UpdateMap, d: Seq<char>, r: Seq<DocUpdate>) -> bool {
    &&& forall|i: int, j: int| 0 <= i < j < r.len() ==> r[i].created_at < r[j].created_at
    &&& forall|i: int|
        0 <= i < r.len() ==> {
            &&& (#[trigger] r[i]).doc_id@ == d
            &&& m.contains_key((d, r[i].created_at as int))
            &&& m[(d, r[i].created_at as int)] == r[i].data@
        }
    &&& forall|t: int|
        #[trigger] m.contains_key((d, t)) ==> exists|i: int|
            0 <= i < r.len() && r[i].created_at == t
}

spec fn entries(rows: Seq<DocUpdate>) -> Seq<((Seq<char>, int), Seq<u8>)> {
    Seq::new(rows.len(), |i: int| ((rows[i].doc_id@, rows[i].created_at as int), rows[i].data@))
}

/// The append-only log of pending updates, kept in timestamp order.
pub struct UpdateLog {
    rows: Vec<DocUpdate>,
}

impl View for UpdateLog {
    type V = UpdateMap;

    closed spec fn view(&self) -> UpdateMap {
        table_map(entries(self.rows@))
    }
}

impl UpdateLog {
    pub closed spec fn wf(&self) -> bool {
        &&& keys_unique(entries(self.rows@))
        &&& forall|i: int, j: int|
            0 <= i <= j < self.rows@.len() ==> self.rows@[i].created_at <= self.rows@[j].created_at
    }

    pub fn new() -> (r: Self)
        ensures
            r.wf(),
            r@ == Map::<(Seq<char>, int), Seq<u8>>::empty(),
    {
        let r = UpdateLog { rows: Vec::new() };
        proof {
            assert(r@ =~= Map::<(Seq<char>, int), Seq<u8>>::empty());
        }
        r
    }

    proof fn lemma_rows(&self)
        requires
            self.wf(),
        ensures
            forall|i: int|
                0 <= i < self.rows@.len() ==> self@.contains_key(
                    (#[trigger] self.rows@[i].doc_id@, self.rows@[i].created_at as int),
                ) && self@[(self.rows@[i].doc_id@, self.rows@[i].created_at as int)]
                    == self.rows@[i].data@,
            forall|k: (Seq<char>, int)|
                #[trigger] self@.contains_key(k) ==> exists|i: int|
                    0 <= i < self.rows@.len() && self.rows@[i].doc_id@ == k.0
                        && self.rows@[i].created_at as int == k.1,
    {
        let e = entries(self.rows@);
        lemma_table_all(e);
        assert forall|i: int| 0 <= i < self.rows@.len() implies self@.contains_key(
            (#[trigger] self.rows@[i].doc_id@, self.rows@[i].created_at as int),
        ) && self@[(self.rows@[i].doc_id@, self.rows@[i].created_at as int)]
            == self.rows@[i].data@ by {
            assert(e[i] == ((self.rows@[i].doc_id@, self.rows@[i].created_at as int), self.rows@[i].data@));
            lemma_table_at(e, i);
        }
        assert forall|k: (Seq<char>, int)| #[trigger] self@.contains_key(k) implies exists|i: int|
            0 <= i < self.rows@.len() && self.rows@[i].doc_id@ == k.0
                && self.rows@[i].created_at as int == k.1 by {
            let i = choose|i: int| 0 <= i < e.len() && #[trigger] e[i].0 == k;
            assert(e[i] == ((self.rows@[i].doc_id@, self.rows@[i].created_at as int), self.rows@[i].data@));
        }
    }

    fn find(&self, doc_id: &String, t: i64) -> (r: Option<usize>)
        requires
            self.wf(),
        ensures
            match r {
                Some(i) => i < self.rows@.len() && self.rows@[i as int].doc_id@ == doc_id@
                    && self.rows@[i as int].created_at == t,
                None => !self@.contains_key((doc_id@, t as int)),
            },
    {
        let mut i: usize = 0;
        while i < self.rows.len()
            invariant
                i <= self.rows@.len(),
                forall|j: int|
                    0 <= j < i ==> !(self.rows@[j].doc_id@ == doc_id@ && self.rows@[j].created_at == t),
            decreases self.rows@.len() - i,
        {
            if self.rows[i].created_at == t && self.rows[i].doc_id == *doc_id {
                return Some(i);
            }
            i = i + 1;
        }
        proof {
            self.lemma_rows();
        }
        None
    }

    fn insert_position(&self, t: i64) -> (p: usize)
        requires
            self.wf(),
        ensures
            p <= self.rows@.len(),
            forall|j: int| 0 <= j < p ==> self.rows@[j].created_at <= t,
            forall|j: int| p <= j < self.rows@.len() ==> self.rows@[j].created_at > t,
    {
        let mut p: usize = self.rows.len();
        while p > 0 && self.rows[p - 1].created_at > t
            invariant
                p <= self.rows@.len(),
                self.wf(),
                forall|j: int| p <= j < self.rows@.len() ==> self.rows@[j].created_at > t,
            decreases p,
        {
            p = p - 1;
        }
        p
    }

    /// Adds one update unless its (document, timestamp) is already there.
    pub fn insert(&mut self, doc_id: &String, t: i64, data: &Vec<u8>) -> (inserted: bool)
        requires
            old(self).wf(),
        ensures
            final(self).wf(),
            inserted == !old(self)@.contains_key((doc_id@, t as int)),
            final(self)@ == if inserted {
                old(self)@.insert((doc_id@, t as int), data@)
            } else {
                old(self)@
            },
    {
        match self.find(doc_id, t) {
            Some(i) => {
                proof {
                    self.lemma_rows();
                }
                false
            },
            None => {
                let p = self.insert_position(t);
                let row = DocUpdate { doc_id: doc_id.clone(), created_at: t, data: copy_bytes(data) };
                let ghost e0 = entries(self.rows@);
                let ghost kv = ((doc_id@, t as int), data@);
                self.rows.insert(p, row);
                proof {
                    assert(entries(self.rows@) =~= e0.insert(p as int, kv));
                    lemma_table_insert(e0, p as int, kv.0, kv.1);
                    assert forall|i: int, j: int|
                        0 <= i <= j < self.rows@.len() implies self.rows@[i].created_at
                        <= self.rows@[j].created_at by {
                        let s0 = old(self).rows@;
                        if i < p && j < p {
                        } else if i < p && j == p {
                            assert(self.rows@[i] == s0[i]);
                        } else if i < p {
                            assert(self.rows@[i] == s0[i]);
                            assert(self.rows@[j] == s0[j - 1]);
                        } else if i == p && j > p {
                            assert(self.rows@[j] == s0[j - 1]);
                        } else if i > p {
                            assert(self.rows@[i] == s0[i - 1]);
                            assert(self.rows@[j] == s0[j - 1]);
                        }
                    }
                }
                true
            },
        }
    }

    fn remove_at(&mut self, j: usize)
        requires
            old(self).wf(),
            j < old(self).rows@.len(),
        ensures
            final(self).wf(),
            final(self).rows@ == old(self).rows@.remove(j as int),
            final(self)@ == old(self)@.remove(
                (old(self).rows@[j as int].doc_id@, old(self).rows@[j as int].created_at as int),
            ),
    {
        let ghost e0 = entries(self.rows@);
        self.rows.remove(j);
        proof {
            assert(entries(self.rows@) =~= e0.remove(j as int));
            lemma_table_remove(e0, j as int);
            let s0 = old(self).rows@;
            assert forall|a: int, b: int|
                0 <= a <= b < self.rows@.len() implies self.rows@[a].created_at
                <= self.rows@[b].created_at by {
                let a2 = if a < j { a } else { a + 1 };
                let b2 = if b < j { b } else { b + 1 };
                assert(self.rows@[a] == s0[a2]);
                assert(self.rows@[b] == s0[b2]);
            }
        }
    }

    /// Ingests a batch of (timestamp, payload) for one document; gives how
    /// many were new.
    pub fn push_updates(&mut self, doc_id: &String, updates: &Vec<(i64, Vec<u8>)>) -> (n: u32)
        requires
            old(self).wf(),
            updates@.len() <= u32::MAX,
        ensures
            final(self).wf(),
            final(self)@ == ingest(old(self)@, doc_id@, batch_view(updates@)).0,
            n as nat == ingest(old(self)@, doc_id@, batch_view(updates@)).1,
    {
        let mut n: u32 = 0;
        let mut i: usize = 0;
        while i < updates.len()
            invariant
                self.wf(),
                i <= updates@.len(),
                updates@.len() <= u32::MAX,
                n <= i,
                (self@, n as nat) == ingest(old(self)@, doc_id@, batch_view(updates@).take(i as int)),
            decreases updates@.len() - i,
        {
            let inserted = self.insert(doc_id, updates[i].0, &updates[i].1);
            if inserted {
                n = n + 1;
            }
            proof {
                let b = batch_view(updates@);
                assert(b.take(i + 1).drop_last() =~= b.take(i as int));
            }
            i = i + 1;
        }
        proof {
            assert(batch_view(updates@).take(updates@.len() as int) =~= batch_view(updates@));
        }
        n
    }

    /// Removes the listed timestamps of one document; gives how many were there.
    pub fn mark_merged(&mut self, doc_id: &String, timestamps: &Vec<i64>) -> (n: u32)
        requires
            old(self).wf(),
            timestamps@.len() <= u32::MAX,
        ensures
            final(self).wf(),
            final(self)@ == acknowledge(old(self)@, doc_id@, timestamps@.map_values(|t: i64| t as int)).0,
            n as nat == acknowledge(old(self)@, doc_id@, timestamps@.map_values(|t: i64| t as int)).1,
    {
        let ghost ts = timestamps@.map_values(|t: i64| t as int);
        let mut n: u32 = 0;
        let mut i: usize = 0;
        while i < timestamps.len()
            invariant
                self.wf(),
                i <= timestamps@.len(),
                timestamps@.len() <= u32::MAX,
                n <= i,
                ts == timestamps@.map_values(|t: i64| t as int),
                (self@, n as nat) == acknowledge(old(self)@, doc_id@, ts.take(i as int)),
            decreases timestamps@.len() - i,
        {
            proof {
                assert(ts.take(i + 1).drop_last() =~= ts.take(i as int));
                assert(ts.take(i + 1).last() == timestamps@[i as int] as int);
                self.lemma_rows();
            }
            match self.find(doc_id, timestamps[i]) {
                Some(j) => {
                    self.remove_at(j);
                    n = n + 1;
                },
                None => {},
            }
            i = i + 1;
        }
        proof {
            assert(ts.take(timestamps@.len() as int) =~= ts);
        }
        n
    }

    /// Removes every pending update of one document.
    pub fn delete_doc(&mut self, doc_id: &String)
        requires
            old(self).wf(),
        ensures
            final(self).wf(),
            final(self)@ == without_doc(old(self)@, doc_id@),
    {
        let mut i: usize = 0;
        while i < self.rows.len()
            invariant
                self.wf(),
                i <= self.rows@.len(),
                forall|j: int| 0 <= j < i ==> (#[trigger] self.rows@[j]).doc_id@ != doc_id@,
                forall|k: (Seq<char>, int)|
                    #[trigger] self@.contains_key(k) ==> old(self)@.contains_key(k) && self@[k]
                        == old(self)@[k],
                forall|k: (Seq<char>, int)|
                    #[trigger] old(self)@.contains_key(k) && k.0 != doc_id@ ==> self@.contains_key(k),
            decreases self.rows@.len() - i,
        {
            if self.rows[i].doc_id == *doc_id {
                self.remove_at(i);
            } else {
                i = i + 1;
            }
        }
        proof {
            self.lemma_rows();
            let w = without_doc(old(self)@, doc_id@);
            assert forall|k: (Seq<char>, int)| #[trigger] self@.contains_key(k) implies k.0 != doc_id@ by {
                let j = choose|j: int|
                    0 <= j < self.rows@.len() && self.rows@[j].doc_id@ == k.0 && self.rows@[j].created_at
                        as int == k.1;
                assert(self.rows@[j].doc_id@ != doc_id@);
            }
            assert(self@ =~= w);
        }
    }

    /// The newest pending timestamp of one document, if it has any.
    pub fn latest_of(&self, doc_id: &String) -> (r: Option<i64>)
        requires
            self.wf(),
        ensures
            r is None <==> !has_pending(self@, doc_id@),
            r matches Some(c) ==> self@.contains_key((doc_id@, c as int)) && forall|t: int|
                #[trigger] self@.contains_key((doc_id@, t)) ==> t <= c,
    {
        let mut best: Option<i64> = None;
        let mut i: usize = 0;
        while i < self.rows.len()
            invariant
                i <= self.rows@.len(),
                best is None ==> forall|j: int| 0 <= j < i ==> (#[trigger] self.rows@[j]).doc_id@ != doc_id@,
                best matches Some(c) ==> (exists|j: int|
                    0 <= j < i && self.rows@[j].doc_id@ == doc_id@ && self.rows@[j].created_at == c)
                    && forall|j: int|
                    0 <= j < i && (#[trigger] self.rows@[j]).doc_id@ == doc_id@ ==> self.rows@[j].created_at
                        <= c,
            decreases self.rows@.len() - i,
        {
            if self.rows[i].doc_id == *doc_id {
                let t = self.rows[i].created_at;
                match best {
                    None => {
                        best = Some(t);
                    },
                    Some(c) => {
                        if t > c {
                            best = Some(t);
                        }
                    },
                }
            }
            i = i + 1;
        }
        proof {
            self.lemma_rows();
            match best {
                None => {
                    assert forall|t: int| !#[trigger] self@.contains_key((doc_id@, t)) by {
                        if self@.contains_key((doc_id@, t)) {
                            let j = choose|j: int|
                                0 <= j < self.rows@.len() && self.rows@[j].doc_id@ == doc_id@
                                    && self.rows@[j].created_at as int == t;
                            assert(self.rows@[j].doc_id@ != doc_id@);
                        }
                    }
                },
                Some(c) => {
                    let j = choose|j: int|
                        0 <= j < self.rows@.len() && self.rows@[j].doc_id@ == doc_id@ && self.rows@[j].created_at == c;
                    assert(self@.contains_key((self.rows@[j].doc_id@, self.rows@[j].created_at as int)));
                    assert forall|t: int| #[trigger] self@.contains_key((doc_id@, t)) implies t <= c by {
                        let j2 = choose|j2: int|
                            0 <= j2 < self.rows@.len() && self.rows@[j2].doc_id@ == doc_id@
                                && self.rows@[j2].created_at as int == t;
                        assert(self.rows@[j2].doc_id@ == doc_id@);
                    }
                },
            }
        }
        best
    }

    /// Every document with a pending update, each once.
    pub fn doc_ids(&self) -> (r: Vec<String>)
        requires
            self.wf(),
        ensures
            forall|i: int, j: int| 0 <= i < j < r@.len() ==> r@[i]@ != r@[j]@,
            forall|i: int| 0 <= i < r@.len() ==> has_pending(self@, #[trigger] r@[i]@),
            forall|d: Seq<char>| has_pending(self@, d) ==> exists|i: int| 0 <= i < r@.len() && #[trigger] r@[i]@ == d,
    {
        proof {
            self.lemma_rows();
        }
        let mut r: Vec<String> = Vec::new();
        let mut i: usize = 0;
        while i < self.rows.len()
            invariant
                self.wf(),
                i <= self.rows@.len(),
                forall|a: int, b: int| 0 <= a < b < r@.len() ==> r@[a]@ != r@[b]@,
                forall|a: int| 0 <= a < r@.len() ==> has_pending(self@, #[trigger] r@[a]@),
                forall|j: int| 0 <= j < i ==> exists|a: int| 0 <= a < r@.len() && #[trigger] r@[a]@ == (#[trigger] self.rows@[j]).doc_id@,
                forall|j: int|
                    0 <= j < self.rows@.len() ==> self@.contains_key(
                        (#[trigger] self.rows@[j].doc_id@, self.rows@[j].created_at as int),
                    ),
            decreases self.rows@.len() - i,
        {
            let ghost r0 = r@;
            let ghost d = self.rows@[i as int].doc_id@;
            let seen = contains_string(&r, &self.rows[i].doc_id);
            if !seen {
                let ghost t = self.rows@[i as int].created_at as int;
                assert(self@.contains_key((d, t)));
                r.push(self.rows[i].doc_id.clone());
                assert(r@[r@.len() - 1]@ == d);
            }
            proof {
                assert forall|j: int| 0 <= j < i + 1 implies exists|a: int|
                    0 <= a < r@.len() && #[trigger] r@[a]@ == (#[trigger] self.rows@[j]).doc_id@ by {
                    if j < i {
                        let a = choose|a: int| 0 <= a < r0.len() && #[trigger] r0[a]@ == self.rows@[j].doc_id@;
                        assert(r@[a] == r0[a]);
                    } else if seen {
                        let a = choose|a: int| 0 <= a < r0.len() && #[trigger] r0[a]@ == d;
                        assert(r@[a] == r0[a]);
                    } else {
                        assert(r@[r@.len() - 1]@ == d);
                    }
                }
            }
            i = i + 1;
        }
        proof {
            assert forall|d: Seq<char>| has_pending(self@, d) implies exists|a: int| 0 <= a < r@.len() && #[trigger] r@[a]@ == d by {
                let t = choose|t: int| #[trigger] self@.contains_key((d, t));
                let j = choose|j: int|
                    0 <= j < self.rows@.len() && self.rows@[j].doc_id@ == (d, t).0
                        && self.rows@[j].created_at as int == (d, t).1;
                assert(self.rows@[j].doc_id@ == d);
            }
        }
        r
    }

    /// The pending updates of one document, by ascending timestamp.
    pub fn updates_of(&self, doc_id: &String) -> (r: Vec<DocUpdate>)
        requires
            self.wf(),
        ensures
            lists_doc_updates(self@, doc_id@, r@),
    {
        let mut r: Vec<DocUpdate> = Vec::new();
        let ghost mut idx: Seq<int> = Seq::empty();
        let mut i: usize = 0;
        while i < self.rows.len()
            invariant
                self.wf(),
                i <= self.rows@.len(),
                idx.len() == r@.len(),
                forall|k: int| 0 <= k < idx.len() ==> 0 <= #[trigger] idx[k] < i,
                forall|k1: int, k2: int| 0 <= k1 < k2 < idx.len() ==> idx[k1] < idx[k2],
                forall|k: int|
                    0 <= k < idx.len() ==> {
                        &&& (#[trigger] r@[k]).doc_id@ == doc_id@
                        &&& self.rows@[idx[k]].doc_id@ == doc_id@
                        &&& r@[k].created_at == self.rows@[idx[k]].created_at
                        &&& r@[k].data@ == self.rows@[idx[k]].data@
                    },
                forall|j: int|
                    0 <= j < i && (#[trigger] self.rows@[j]).doc_id@ == doc_id@ ==> exists|k: int|
                        0 <= k < idx.len() && idx[k] == j,
            decreases self.rows@.len() - i,
        {
            if self.rows[i].doc_id == *doc_id {
                let row = DocUpdate {
                    doc_id: self.rows[i].doc_id.clone(),
                    created_at: self.rows[i].created_at,
                    data: copy_bytes(&self.rows[i].data),
                };
                let ghost idx0 = idx;
                r.push(row);
                proof {
                    idx = idx.push(i as int);
                    assert forall|j: int|
                        0 <= j < i + 1 && (#[trigger] self.rows@[j]).doc_id@ == doc_id@ implies exists|k: int|
                        0 <= k < idx.len() && idx[k] == j by {
                        if j < i {
                            let k = choose|k: int| 0 <= k < idx0.len() && idx0[k] == j;
                            assert(idx[k] == j);
                        } else {
                            assert(idx[idx.len() - 1] == j);
                        }
                    }
                }
            }
            i = i + 1;
        }
        proof {
            self.lemma_rows();
            let e = entries(self.rows@);
            assert forall|a: int, b: int| 0 <= a < b < r@.len() implies r@[a].created_at < r@[b].created_at by {
                let ia = idx[a];
                let ib = idx[b];
                assert(e[ia].0 != e[ib].0);
                assert(e[ia].0 == (self.rows@[ia].doc_id@, self.rows@[ia].created_at as int));
                assert(e[ib].0 == (self.rows@[ib].doc_id@, self.rows@[ib].created_at as int));
            }
            assert forall|k: int| 0 <= k < r@.len() implies {
                &&& (#[trigger] r@[k]).doc_id@ == doc_id@
                &&& self@.contains_key((doc_id@, r@[k].created_at as int))
                &&& self@[(doc_id@, r@[k].created_at as int)] == r@[k].data@
            } by {
                let j = idx[k];
                assert(self@.contains_key((self.rows@[j].doc_id@, self.rows@[j].created_at as int)));
            }
            assert forall|t: int| #[trigger] self@.contains_key((doc_id@, t)) implies exists|k: int|
                0 <= k < r@.len() && r@[k].created_at == t by {
                let j = choose|j: int|
                    0 <= j < self.rows@.len() && self.rows@[j].doc_id@ == (doc_id@, t).0
                        && self.rows@[j].created_at as int == (doc_id@, t).1;
                assert(self.rows@[j].doc_id@ == doc_id@);
                let k = choose|k: int| 0 <= k < idx.len() && idx[k] == j;
                assert(r@[k].created_at == self.rows@[j].created_at);
            }
        }
        r
    }
}

} // verus!
