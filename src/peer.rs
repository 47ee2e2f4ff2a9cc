use vstd::prelude::*;

use crate::table::{keys_unique, lemma_table_all, lemma_table_at, lemma_table_insert, lemma_table_update, table_map};
use crate::types::{DocClock, PeerClockMap};

verus! {

/// `r` lists, once per document, the clock recorded for `peer`.
pub open spec fn lists_peer_clocks(m: PeerClockMap, peer: Seq<char>, r: Seq<DocClock>) -> bool {
    &&& forall|i: int, j: int| 0 <= i < j < r.len() ==> r[i].doc_id@ != r[j].doc_id@
    &&& forall|i: int|
        0 <= i < r.len() ==> m.contains_key((peer, (#[trigger] r[i]).doc_id@)) && m[(peer, r[i].doc_id@)]
            == r[i].timestamp as int
    &&& forall|d: Seq<char>|
        #[trigger] m.contains_key((peer, d)) ==> exists|i: int| 0 <= i < r.len() && r[i].doc_id@ == d
}

struct PeerClockRow {
    peer: String,
    doc_id: String,
    clock: i64,
}

spec fn clock_from_row(c: DocClock, row: PeerClockRow, peer: Seq<char>) -> bool {
    &&& row.peer@ == peer
    &&& c.doc_id@ == row.doc_id@
    &&& c.timestamp == row.clock
}

spec fn entries(rows: Seq<PeerClockRow>) -> Seq<((Seq<char>, Seq<char>), int)> {
    Seq::new(rows.len(), |i: int| ((rows[i].peer@, rows[i].doc_id@), rows[i].clock as int))
}

/// One cursor per (peer, document).
pub struct PeerClockTable {
    rows: Vec<PeerClockRow>,
}

impl View for PeerClockTable {
    type V = PeerClockMap;

    closed spec fn view(&self) -> PeerClockMap {
        table_map(entries(self.rows@))
    }
}

impl PeerClockTable {
    pub closed spec fn wf(&self) -> bool {
        keys_unique(entries(self.rows@))
    }

    pub fn new() -> (r: Self)
        ensures
            r.wf(),
            r@ == Map::<(Seq<char>, Seq<char>), int>::empty(),
    {
        let r = PeerClockTable { rows: Vec::new() };
        proof {
            assert(r@ =~= Map::<(Seq<char>, Seq<char>), int>::empty());
        }
        r
    }

    proof fn lemma_rows(&self)
        requires
            self.wf(),
        ensures
            forall|i: int|
                0 <= i < self.rows@.len() ==> self@.contains_key(
                    (#[trigger] self.rows@[i].peer@, self.rows@[i].doc_id@),
                ) && self@[(self.rows@[i].peer@, self.rows@[i].doc_id@)] == self.rows@[i].clock as int,
            forall|k: (Seq<char>, Seq<char>)|
                #[trigger] self@.contains_key(k) ==> exists|i: int|
                    0 <= i < self.rows@.len() && self.rows@[i].peer@ == k.0 && self.rows@[i].doc_id@ == k.1,
    {
        let e = entries(self.rows@);
        lemma_table_all(e);
        assert forall|i: int| 0 <= i < self.rows@.len() implies self@.contains_key(
            (#[trigger] self.rows@[i].peer@, self.rows@[i].doc_id@),
        ) && self@[(self.rows@[i].peer@, self.rows@[i].doc_id@)] == self.rows@[i].clock as int by {
            assert(e[i] == ((self.rows@[i].peer@, self.rows@[i].doc_id@), self.rows@[i].clock as int));
            lemma_table_at(e, i);
        }
        assert forall|k: (Seq<char>, Seq<char>)| #[trigger] self@.contains_key(k) implies exists|i: int|
            0 <= i < self.rows@.len() && self.rows@[i].peer@ == k.0 && self.rows@[i].doc_id@ == k.1 by {
            let i = choose|i: int| 0 <= i < e.len() && #[trigger] e[i].0 == k;
            assert(e[i].0 == (self.rows@[i].peer@, self.rows@[i].doc_id@));
        }
    }

    /// Records the clock of (peer, document), replacing any earlier one.
    pub fn set(&mut self, peer: String, doc_id: String, clock: i64)
        requires
            old(self).wf(),
        ensures
            final(self).wf(),
            final(self)@ == old(self)@.insert((peer@, doc_id@), clock as int),
    {
        let mut i: usize = 0;
        while i < self.rows.len()
            invariant
                self.wf(),
                self.rows@ == old(self).rows@,
                i <= self.rows@.len(),
                forall|j: int|
                    0 <= j < i ==> !((#[trigger] self.rows@[j]).peer@ == peer@ && self.rows@[j].doc_id@
                        == doc_id@),
            decreases self.rows@.len() - i,
        {
            if self.rows[i].peer == peer && self.rows[i].doc_id == doc_id {
                let ghost e0 = entries(self.rows@);
                let ghost k = (peer@, doc_id@);
                let row = PeerClockRow { peer, doc_id, clock };
                self.rows.set(i, row);
                proof {
                    assert(entries(self.rows@) =~= e0.update(i as int, (k, clock as int)));
                    assert(e0[i as int].0 == k);
                    lemma_table_update(e0, i as int, clock as int);
                }
                return ;
            }
            i = i + 1;
        }
        let ghost e0 = entries(self.rows@);
        let ghost k = (peer@, doc_id@);
        proof {
            self.lemma_rows();
            assert(!self@.contains_key(k));
        }
        let p = self.rows.len();
        self.rows.push(PeerClockRow { peer, doc_id, clock });
        proof {
            assert(entries(self.rows@) =~= e0.insert(p as int, (k, clock as int)));
            lemma_table_insert(e0, p as int, k, clock as int);
        }
    }

    /// The clocks recorded for one peer, one per document.
    pub fn clocks_of(&self, peer_id: &String) -> (r: Vec<DocClock>)
        requires
            self.wf(),
        ensures
            lists_peer_clocks(self@, peer_id@, r@),
    {
        let mut r: Vec<DocClock> = Vec::new();
        let ghost mut idx: Seq<int> = Seq::empty();
        let mut i: usize = 0;
        while i < self.rows.len()
            invariant
                self.wf(),
                i <= self.rows@.len(),
                idx.len() == r@.len(),
                forall|k: int| 0 <= k < idx.len() ==> 0 <= #[trigger] idx[k] < i,
                forall|k1: int, k2: int| 0 <= k1 < k2 < idx.len() ==> idx[k1] < idx[k2],
                forall|k: int|
                    0 <= k < idx.len() ==> clock_from_row(#[trigger] r@[k], self.rows@[idx[k]], peer_id@),
                forall|j: int|
                    0 <= j < i && (#[trigger] self.rows@[j]).peer@ == peer_id@ ==> exists|k: int|
                        0 <= k < idx.len() && idx[k] == j,
            decreases self.rows@.len() - i,
        {
            if self.rows[i].peer == *peer_id {
                let item = DocClock { doc_id: self.rows[i].doc_id.clone(), timestamp: self.rows[i].clock };
                assert(item.doc_id@ == self.rows@[i as int].doc_id@);
                let ghost idx0 = idx;
                let ghost r0 = r@;
                r.push(item);
                proof {
                    idx = idx.push(i as int);
                    assert forall|k: int| 0 <= k < idx.len() implies clock_from_row(#[trigger] r@[k], self.rows@[idx[k]], peer_id@) by {
                        if k < idx0.len() {
                            assert(r@[k] == r0[k]);
                            assert(idx[k] == idx0[k]);
                        } else {
                            assert(idx[k] == i);
                            assert(r@[k] == item);
                        }
                    }
                    assert forall|j: int|
                        0 <= j < i + 1 && (#[trigger] self.rows@[j]).peer@ == peer_id@ implies exists|k: int|
                        0 <= k < idx.len() && idx[k] == j by {
                        if j < i {
                            let k = choose|k: int| 0 <= k < idx0.len() && idx0[k] == j;
                            assert(idx[k] == j);
                        } else {
                            assert(idx[idx.len() - 1] == j);
                        }
                    }
                }
            }
            i = i + 1;
        }
        proof {
            self.lemma_rows();
            let e = entries(self.rows@);
            assert forall|a: int, b: int| 0 <= a < b < r@.len() implies r@[a].doc_id@ != r@[b].doc_id@ by {
                assert(e[idx[a]].0 == (self.rows@[idx[a]].peer@, self.rows@[idx[a]].doc_id@));
                assert(e[idx[b]].0 == (self.rows@[idx[b]].peer@, self.rows@[idx[b]].doc_id@));
            }
            assert forall|k: int| 0 <= k < r@.len() implies self@.contains_key((peer_id@, (#[trigger] r@[k]).doc_id@))
                && self@[(peer_id@, r@[k].doc_id@)] == r@[k].timestamp as int by {
                let j = idx[k];
                assert(self@.contains_key((self.rows@[j].peer@, self.rows@[j].doc_id@)));
            }
            assert forall|d: Seq<char>| #[trigger] self@.contains_key((peer_id@, d)) implies exists|k: int|
                0 <= k < r@.len() && r@[k].doc_id@ == d by {
                let j = choose|j: int|
                    0 <= j < self.rows@.len() && self.rows@[j].peer@ == (peer_id@, d).0 && self.rows@[j].doc_id@
                        == (peer_id@, d).1;
                assert(self.rows@[j].peer@ == peer_id@);
                let k = choose|k: int| 0 <= k < idx.len() && idx[k] == j;
                assert(r@[k].doc_id@ == d);
            }
        }
        r
    }
}

} // verus!
