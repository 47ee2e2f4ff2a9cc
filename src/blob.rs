use vstd::prelude::*;

use crate::table::{copy_bytes, keys_unique, lemma_table_all, lemma_table_at, lemma_table_insert, lemma_table_remove, lemma_table_update, table_map};
use crate::types::{Blob, BlobModel, ListedBlob, SetBlob};

verus! {

/// Blobs by key.
pub type BlobMap = Map<Seq<char>, BlobModel>;

/// An optional timestamp, as a value.
pub open spec fn opt_int(o: Option<i64>) -> Option<int> {
    match o {
        Some(t) => Some(t as int),
        None => None,
    }
}

/// The size recorded for a payload.
pub open spec fn size_of(data: Seq<u8>) -> int {
    data.len() as i64 as int
}

/// What a blob is after it was set: the new payload and type, its first
/// creation time kept, and no deletion mark.
pub open spec fn blob_after_set(m: BlobMap, key: Seq<char>, data: Seq<u8>, mime: Seq<char>, now: int) -> BlobModel {
    BlobModel {
        data,
        mime,
        size: size_of(data),
        created_at: if m.contains_key(key) {
            m[key].created_at
        } else {
            now
        },
        deleted_at: None,
    }
}

/// The blobs after one is deleted, outright or by a deletion mark.
pub open spec fn blobs_after_delete(m: BlobMap, key: Seq<char>, permanently: bool, now: int) -> BlobMap {
    if permanently {
        m.remove(key)
    } else if m.contains_key(key) {
        m.insert(key, BlobModel { deleted_at: Some(now), ..m[key] })
    } else {
        m
    }
}

/// The blobs that carry no deletion mark.
pub open spec fn live_blobs(m: BlobMap) -> BlobMap {
    Map::new(|k: Seq<char>| m.contains_key(k) && m[k].deleted_at is None, |k: Seq<char>| m[k])
}

/// `r` lists the metadata of every live blob once, by ascending creation time.
pub open spec fn lists_live_blobs(m: BlobMap, r: Seq<ListedBlob>) -> bool {
    &&& forall|i: int, j: int| 0 <= i < j < r.len() ==> r[i].created_at <= r[j].created_at
    &&& forall|i: int, j: int| 0 <= i < j < r.len() ==> r[i].key@ != r[j].key@
    &&& forall|i: int|
        0 <= i < r.len() ==> {
            let b = m[(#[trigger] r[i]).key@];
            &&& m.contains_key(r[i].key@)
            &&& b.deleted_at is None
            &&& b.size == r[i].size as int
            &&& b.mime == r[i].mime@
            &&& b.created_at == r[i].created_at as int
        }
    &&& forall|k: Seq<char>|
        #[trigger] m.contains_key(k) && m[k].deleted_at is None ==> exists|i: int|
            0 <= i < r.len() && r[i].key@ == k
}

struct BlobRow {
    key: String,
    data: Vec<u8>,
    mime: String,
    size: i64,
    created_at: i64,
    deleted_at: Option<i64>,
}

spec fn row_model(r: BlobRow) -> BlobModel {
    BlobModel {
        data: r.data@,
        mime: r.mime@,
        size: r.size as int,
        created_at: r.created_at as int,
        deleted_at: opt_int(r.deleted_at),
    }
}

spec fn entries(rows: Seq<BlobRow>) -> Seq<(Seq<char>, BlobModel)> {
    Seq::new(rows.len(), |i: int| (rows[i].key@, row_model(rows[i])))
}

/// Binary attachments by key, kept in order of creation time.
pub struct BlobStore {
    rows: Vec<BlobRow>,
}

impl View for BlobStore {
    type V = BlobMap;

    closed spec fn view(&self) -> BlobMap {
        table_map(entries(self.rows@))
    }
}

impl BlobStore {
    pub closed spec fn wf(&self) -> bool {
        &&& keys_unique(entries(self.rows@))
        &&& forall|i: int, j: int|
            0 <= i <= j < self.rows@.len() ==> self.rows@[i].created_at <= self.rows@[j].created_at
    }

    pub fn new() -> (r: Self)
        ensures
            r.wf(),
            r@ == Map::<Seq<char>, BlobModel>::empty(),
    {
        let r = BlobStore { rows: Vec::new() };
        proof {
            assert(r@ =~= Map::<Seq<char>, BlobModel>::empty());
        }
        r
    }

    proof fn lemma_rows(&self)
        requires
            self.wf(),
        ensures
            forall|i: int|
                0 <= i < self.rows@.len() ==> self@.contains_key(#[trigger] self.rows@[i].key@)
                    && self@[self.rows@[i].key@] == row_model(self.rows@[i]),
            forall|k: Seq<char>|
                #[trigger] self@.contains_key(k) ==> exists|i: int|
                    0 <= i < self.rows@.len() && self.rows@[i].key@ == k,
    {
        let e = entries(self.rows@);
        lemma_table_all(e);
        assert forall|i: int| 0 <= i < self.rows@.len() implies self@.contains_key(
            #[trigger] self.rows@[i].key@,
        ) && self@[self.rows@[i].key@] == row_model(self.rows@[i]) by {
            assert(e[i] == (self.rows@[i].key@, row_model(self.rows@[i])));
            lemma_table_at(e, i);
        }
        assert forall|k: Seq<char>| #[trigger] self@.contains_key(k) implies exists|i: int|
            0 <= i < self.rows@.len() && self.rows@[i].key@ == k by {
            let i = choose|i: int| 0 <= i < e.len() && #[trigger] e[i].0 == k;
            assert(e[i].0 == self.rows@[i].key@);
        }
    }

    fn find(&self, key: &String) -> (r: Option<usize>)
        requires
            self.wf(),
        ensures
            match r {
                Some(i) => i < self.rows@.len() && self.rows@[i as int].key@ == key@ && self@.contains_key(key@)
                    && self@[key@] == row_model(self.rows@[i as int]),
                None => !self@.contains_key(key@),
            },
    {
        let mut i: usize = 0;
        while i < self.rows.len()
            invariant
                self.wf(),
                i <= self.rows@.len(),
                forall|j: int| 0 <= j < i ==> (#[trigger] self.rows@[j]).key@ != key@,
            decreases self.rows@.len() - i,
        {
            if self.rows[i].key == *key {
                proof {
                    self.lemma_rows();
                }
                return Some(i);
            }
            i = i + 1;
        }
        proof {
            self.lemma_rows();
        }
        None
    }

    /// Replaces row `i` by one with the same key and creation time.
    fn replace_at(&mut self, i: usize, row: BlobRow)
        requires
            old(self).wf(),
            i < old(self).rows@.len(),
            row.key@ == old(self).rows@[i as int].key@,
            row.created_at == old(self).rows@[i as int].created_at,
        ensures
            final(self).wf(),
            final(self)@ == old(self)@.insert(row.key@, row_model(row)),
    {
        let ghost e0 = entries(self.rows@);
        let ghost m = row_model(row);
        self.rows.set(i, row);
        proof {
            assert(entries(self.rows@) =~= e0.update(i as int, (e0[i as int].0, m)));
            lemma_table_update(e0, i as int, m);
            let s0 = old(self).rows@;
            assert forall|a: int, b: int|
                0 <= a <= b < self.rows@.len() implies self.rows@[a].created_at
                <= self.rows@[b].created_at by {
                assert(self.rows@[a].created_at == s0[a].created_at);
                assert(self.rows@[b].created_at == s0[b].created_at);
            }
        }
    }

    fn remove_at(&mut self, j: usize)
        requires
            old(self).wf(),
            j < old(self).rows@.len(),
        ensures
            final(self).wf(),
            final(self).rows@ == old(self).rows@.remove(j as int),
            final(self)@ == old(self)@.remove(old(self).rows@[j as int].key@),
    {
        let ghost e0 = entries(self.rows@);
        self.rows.remove(j);
        proof {
            assert(entries(self.rows@) =~= e0.remove(j as int));
            lemma_table_remove(e0, j as int);
            let s0 = old(self).rows@;
            assert forall|a: int, b: int|
                0 <= a <= b < self.rows@.len() implies self.rows@[a].created_at
                <= self.rows@[b].created_at by {
                let a2 = if a < j { a } else { a + 1 };
                let b2 = if b < j { b } else { b + 1 };
                assert(self.rows@[a] == s0[a2]);
                assert(self.rows@[b] == s0[b2]);
            }
        }
    }

    /// The blob under `key`, if any; a blob with a deletion mark is still
    /// returned until it is removed for good.
    pub fn get(&self, key: &String) -> (r: Option<Blob>)
        requires
            self.wf(),
        ensures
            r is None <==> !self@.contains_key(key@),
            r matches Some(b) ==> {
                let m = self@[key@];
                &&& b.key@ == key@
                &&& b.data@ == m.data
                &&& b.mime@ == m.mime
                &&& b.size as int == m.size
                &&& b.created_at as int == m.created_at
            },
    {
        match self.find(key) {
            Some(i) => Some(
                Blob {
                    key: self.rows[i].key.clone(),
                    data: copy_bytes(&self.rows[i].data),
                    mime: self.rows[i].mime.clone(),
                    size: self.rows[i].size,
                    created_at: self.rows[i].created_at,
                },
            ),
            None => None,
        }
    }

    /// Stores a blob under its key at time `now`, replacing what was there
    /// and clearing any deletion mark.
    pub fn set(&mut self, blob: SetBlob, now: i64)
        requires
            old(self).wf(),
        ensures
            final(self).wf(),
            final(self)@ == old(self)@.insert(
                blob.key@,
                blob_after_set(old(self)@, blob.key@, blob.data@, blob.mime@, now as int),
            ),
    {
        let size = blob.data.len() as i64;
        match self.find(&blob.key) {
            Some(i) => {
                let created_at = self.rows[i].created_at;
                let row = BlobRow {
                    key: blob.key,
                    data: blob.data,
                    mime: blob.mime,
                    size,
                    created_at,
                    deleted_at: None,
                };
                self.replace_at(i, row);
            },
            None => {
                let mut p: usize = self.rows.len();
                while p > 0 && self.rows[p - 1].created_at > now
                    invariant
                        p <= self.rows@.len(),
                        self.wf(),
                        forall|j: int| p <= j < self.rows@.len() ==> self.rows@[j].created_at > now,
                    decreases p,
                {
                    p = p - 1;
                }
                let row = BlobRow {
                    key: blob.key,
                    data: blob.data,
                    mime: blob.mime,
                    size,
                    created_at: now,
                    deleted_at: None,
                };
                let ghost e0 = entries(self.rows@);
                let ghost kv = (row.key@, row_model(row));
                self.rows.insert(p, row);
                proof {
                    assert(entries(self.rows@) =~= e0.insert(p as int, kv));
                    lemma_table_insert(e0, p as int, kv.0, kv.1);
                    let s0 = old(self).rows@;
                    assert forall|i: int, j: int|
                        0 <= i <= j < self.rows@.len() implies self.rows@[i].created_at
                        <= self.rows@[j].created_at by {
                        if i < p && j < p {
                        } else if i < p && j == p {
                            assert(self.rows@[i] == s0[i]);
                        } else if i < p {
                            assert(self.rows@[i] == s0[i]);
                            assert(self.rows@[j] == s0[j - 1]);
                        } else if i == p && j > p {
                            assert(self.rows@[j] == s0[j - 1]);
                        } else if i > p {
                            assert(self.rows@[i] == s0[i - 1]);
                            assert(self.rows@[j] == s0[j - 1]);
                        }
                    }
                }
            },
        }
        proof {
            assert(size as int == size_of(blob.data@));
        }
    }

    /// Removes a blob outright, or marks it deleted at time `now`.
    pub fn delete(&mut self, key: &String, permanently: bool, now: i64)
        requires
            old(self).wf(),
        ensures
            final(self).wf(),
            final(self)@ == blobs_after_delete(old(self)@, key@, permanently, now as int),
    {
        match self.find(key) {
            Some(i) => {
                if permanently {
                    self.remove_at(i);
                } else {
                    let row = BlobRow {
                        key: self.rows[i].key.clone(),
                        data: copy_bytes(&self.rows[i].data),
                        mime: self.rows[i].mime.clone(),
                        size: self.rows[i].size,
                        created_at: self.rows[i].created_at,
                        deleted_at: Some(now),
                    };
                    self.replace_at(i, row);
                    proof {
                        assert(row_model(row) == BlobModel { deleted_at: Some(now as int), ..old(self)@[key@] });
                    }
                }
            },
            None => {
                proof {
                    assert(old(self)@.remove(key@) =~= old(self)@);
                }
            },
        }
    }

    /// Removes for good every blob that carries a deletion mark.
    pub fn release(&mut self)
        requires
            old(self).wf(),
        ensures
            final(self).wf(),
            final(self)@ == live_blobs(old(self)@),
    {
        let mut i: usize = 0;
        while i < self.rows.len()
            invariant
                self.wf(),
                i <= self.rows@.len(),
                forall|j: int| 0 <= j < i ==> (#[trigger] self.rows@[j]).deleted_at is None,
                forall|k: Seq<char>|
                    #[trigger] self@.contains_key(k) ==> old(self)@.contains_key(k) && self@[k]
                        == old(self)@[k],
                forall|k: Seq<char>|
                    #[trigger] old(self)@.contains_key(k) && old(self)@[k].deleted_at is None
                        ==> self@.contains_key(k),
            decreases self.rows@.len() - i,
        {
            proof {
                self.lemma_rows();
            }
            if self.rows[i].deleted_at.is_some() {
                self.remove_at(i);
            } else {
                i = i + 1;
            }
        }
        proof {
            self.lemma_rows();
            assert forall|k: Seq<char>| #[trigger] self@.contains_key(k) implies self@[k].deleted_at is None by {
                let j = choose|j: int| 0 <= j < self.rows@.len() && self.rows@[j].key@ == k;
                assert(self.rows@[j].deleted_at is None);
            }
            assert(self@ =~= live_blobs(old(self)@));
        }
    }

    /// The metadata of every live blob, by ascending creation time.
    pub fn list(&self) -> (r: Vec<ListedBlob>)
        requires
            self.wf(),
        ensures
            lists_live_blobs(self@, r@),
    {
        let mut r: Vec<ListedBlob> = Vec::new();
        let ghost mut idx: Seq<int> = Seq::empty();
        let mut i: usize = 0;
        while i < self.rows.len()
            invariant
                self.wf(),
                i <= self.rows@.len(),
                idx.len() == r@.len(),
                forall|k: int| 0 <= k < idx.len() ==> 0 <= #[trigger] idx[k] < i,
                forall|k1: int, k2: int| 0 <= k1 < k2 < idx.len() ==> idx[k1] < idx[k2],
                forall|k: int|
                    0 <= k < idx.len() ==> {
                        let row = self.rows@[idx[k]];
                        &&& (#[trigger] r@[k]).key@ == row.key@
                        &&& row.deleted_at is None
                        &&& r@[k].size == row.size
                        &&& r@[k].mime@ == row.mime@
                        &&& r@[k].created_at == row.created_at
                    },
                forall|j: int|
                    0 <= j < i && (#[trigger] self.rows@[j]).deleted_at is None ==> exists|k: int|
                        0 <= k < idx.len() && idx[k] == j,
            decreases self.rows@.len() - i,
        {
            if self.rows[i].deleted_at.is_none() {
                let item = ListedBlob {
                    key: self.rows[i].key.clone(),
                    size: self.rows[i].size,
                    mime: self.rows[i].mime.clone(),
                    created_at: self.rows[i].created_at,
                };
                let ghost idx0 = idx;
                r.push(item);
                proof {
                    idx = idx.push(i as int);
                    assert forall|j: int|
                        0 <= j < i + 1 && (#[trigger] self.rows@[j]).deleted_at is None implies exists|k: int|
                        0 <= k < idx.len() && idx[k] == j by {
                        if j < i {
                            let k = choose|k: int| 0 <= k < idx0.len() && idx0[k] == j;
                            assert(idx[k] == j);
                        } else {
                            assert(idx[idx.len() - 1] == j);
                        }
                    }
                }
            }
            i = i + 1;
        }
        proof {
            self.lemma_rows();
            let e = entries(self.rows@);
            assert forall|a: int, b: int| 0 <= a < b < r@.len() implies r@[a].key@ != r@[b].key@ by {
                assert(e[idx[a]].0 == self.rows@[idx[a]].key@);
                assert(e[idx[b]].0 == self.rows@[idx[b]].key@);
            }
            assert forall|a: int, b: int| 0 <= a < b < r@.len() implies r@[a].created_at <= r@[b].created_at by {
                assert(idx[a] < idx[b]);
            }
            assert forall|k: int| 0 <= k < r@.len() implies {
                let b = self@[(#[trigger] r@[k]).key@];
                &&& self@.contains_key(r@[k].key@)
                &&& b.deleted_at is None
                &&& b.size == r@[k].size as int
                &&& b.mime == r@[k].mime@
                &&& b.created_at == r@[k].created_at as int
            } by {
                let j = idx[k];
                assert(self@.contains_key(self.rows@[j].key@));
            }
            assert forall|key: Seq<char>|
                #[trigger] self@.contains_key(key) && self@[key].deleted_at is None implies exists|k: int|
                0 <= k < r@.len() && r@[k].key@ == key by {
                let j = choose|j: int| 0 <= j < self.rows@.len() && self.rows@[j].key@ == key;
                assert(self@[self.rows@[j].key@] == row_model(self.rows@[j]));
                assert(self.rows@[j].deleted_at is None);
                let k = choose|k: int| 0 <= k < idx.len() && idx[k] == j;
                assert(r@[k].key@ == key);
            }
        }
        r
    }
}

} // verus!
