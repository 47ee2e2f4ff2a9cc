use vstd::prelude::*;

use crate::blob::{blob_after_set, blobs_after_delete, lists_live_blobs, live_blobs, BlobStore};
use crate::peer::{lists_peer_clocks, PeerClockTable};
use crate::snapshot::{snapshot_applies, SnapshotStore};
use crate::table::contains_string;
use crate::types::{Blob, ConnState, DocClock, DocRecord, DocUpdate, ListedBlob, SetBlob, StorageError, StorageModel, failure};
use crate::update_log::{acknowledge, batch_view, has_pending, ingest, lists_doc_updates, without_doc, UpdateLog};

verus! {

/// Document `d` has a snapshot or a pending update.
pub open spec fn doc_exists(m: StorageModel, d: Seq<char>) -> bool {
    m.snapshots.contains_key(d) || has_pending(m.updates, d)
}

/// `c` is the clock of document `d`: the largest of its snapshot's timestamp
/// and the timestamps of its pending updates.
pub open spec fn is_doc_clock(m: StorageModel, d: Seq<char>, c: int) -> bool {
    &&& (m.snapshots.contains_key(d) && m.snapshots[d].1 == c) || m.updates.contains_key((d, c))
    &&& m.snapshots.contains_key(d) ==> m.snapshots[d].1 <= c
    &&& forall|t: int| #[trigger] m.updates.contains_key((d, t)) ==> t <= c
}

/// Clock `c` is past the cursor, if there is one.
pub open spec fn after_cursor(after: Option<i64>, c: int) -> bool {
    match after {
        Some(a) => c > a,
        None => true,
    }
}

/// Some entry of `r` is for document `d`.
pub open spec fn lists_doc(r: Seq<DocClock>, d: Seq<char>) -> bool {
    exists|k: int| 0 <= k < r.len() && (#[trigger] r[k]).doc_id@ == d
}

pub open spec fn clocks_sorted(r: Seq<DocClock>) -> bool {
    forall|i: int, j: int| 0 <= i <= j < r.len() ==> r[i].timestamp <= r[j].timestamp
}

pub open spec fn docs_distinct(r: Seq<DocClock>) -> bool {
    forall|i: int, j: int| 0 <= i < j < r.len() ==> r[i].doc_id@ != r[j].doc_id@
}

pub open spec fn clocks_valid(m: StorageModel, after: Option<i64>, r: Seq<DocClock>) -> bool {
    forall|k: int|
        0 <= k < r.len() ==> is_doc_clock(m, (#[trigger] r[k]).doc_id@, r[k].timestamp as int)
            && after_cursor(after, r[k].timestamp as int)
}

/// `r` lists, by ascending clock, every document whose clock is past the
/// cursor, once, with that clock.
pub open spec fn lists_doc_clocks(m: StorageModel, after: Option<i64>, r: Seq<DocClock>) -> bool {
    &&& clocks_sorted(r)
    &&& docs_distinct(r)
    &&& clocks_valid(m, after, r)
    &&& forall|d: Seq<char>, c: int|
        #[trigger] is_doc_clock(m, d, c) && after_cursor(after, c) ==> lists_doc(r, d)
    &&& forall|d: Seq<char>|
        #[trigger] doc_exists(m, d) ==> lists_doc(r, d) || exists|c: int|
            is_doc_clock(m, d, c) && !after_cursor(after, c)
}

/// A document has at most one clock.
pub proof fn lemma_clock_unique(m: StorageModel, d: Seq<char>, c1: int, c2: int)
    requires
        is_doc_clock(m, d, c1),
        is_doc_clock(m, d, c2),
    ensures
        c1 == c2,
{
    if m.updates.contains_key((d, c1)) {
        assert(c1 <= c2);
    }
    if m.updates.contains_key((d, c2)) {
        assert(c2 <= c1);
    }
}

proof fn lemma_insert_clock(m: StorageModel, after: Option<i64>, r: Seq<DocClock>, p: int, c: DocClock)
    requires
        0 <= p <= r.len(),
        clocks_valid(m, after, r),
        is_doc_clock(m, c.doc_id@, c.timestamp as int),
        after_cursor(after, c.timestamp as int),
        docs_distinct(r),
        !lists_doc(r, c.doc_id@),
    ensures
        clocks_valid(m, after, r.insert(p, c)),
        docs_distinct(r.insert(p, c)),
        lists_doc(r.insert(p, c), c.doc_id@),
        forall|d: Seq<char>| lists_doc(r, d) ==> lists_doc(r.insert(p, c), d),
        forall|d: Seq<char>| lists_doc(r.insert(p, c), d) ==> lists_doc(r, d) || d == c.doc_id@,
{
    let r2 = r.insert(p, c);
    assert forall|k: int| 0 <= k < r2.len() implies is_doc_clock(m, (#[trigger] r2[k]).doc_id@, r2[k].timestamp as int)
        && after_cursor(after, r2[k].timestamp as int) by {
        if k < p {
            assert(r2[k] == r[k]);
        } else if k > p {
            assert(r2[k] == r[k - 1]);
        }
    }
    assert forall|i: int, j: int| 0 <= i < j < r2.len() implies r2[i].doc_id@ != r2[j].doc_id@ by {
        if i < p {
            assert(r2[i] == r[i]);
        } else if i > p {
            assert(r2[i] == r[i - 1]);
        }
        if j < p {
            assert(r2[j] == r[j]);
        } else if j > p {
            assert(r2[j] == r[j - 1]);
        }
        if i == p {
            assert(r[j - 1].doc_id@ == r2[j].doc_id@);
        }
        if j == p {
            assert(r[i].doc_id@ == r2[i].doc_id@);
        }
    }
    assert(r2[p] == c);
    assert forall|d: Seq<char>| lists_doc(r, d) implies lists_doc(r2, d) by {
        let k = choose|k: int| 0 <= k < r.len() && (#[trigger] r[k]).doc_id@ == d;
        if k < p {
            assert(r2[k] == r[k]);
        } else {
            assert(r2[k + 1] == r[k]);
        }
    }
    assert forall|d: Seq<char>| lists_doc(r2, d) implies lists_doc(r, d) || d == c.doc_id@ by {
        let k = choose|k: int| 0 <= k < r2.len() && (#[trigger] r2[k]).doc_id@ == d;
        if k < p {
            assert(r2[k] == r[k]);
        } else if k > p {
            assert(r2[k] == r[k - 1]);
        }
    }
}

/// Puts `c` into a list kept in ascending clock order; gives where.
fn insert_by_clock(r: &mut Vec<DocClock>, c: DocClock) -> (p: usize)
    requires
        clocks_sorted(old(r)@),
    ensures
        p <= old(r)@.len(),
        final(r)@ == old(r)@.insert(p as int, c),
        clocks_sorted(final(r)@),
{
    let mut p: usize = r.len();
    while p > 0 && r[p - 1].timestamp > c.timestamp
        invariant
            p <= r@.len(),
            forall|j: int| p <= j < r@.len() ==> r@[j].timestamp > c.timestamp,
        decreases p,
    {
        p = p - 1;
    }
    let ghost r0 = r@;
    r.insert(p, c);
    proof {
        assert forall|i: int, j: int| 0 <= i <= j < r@.len() implies r@[i].timestamp <= r@[j].timestamp by {
            if i < p && j < p {
                assert(r@[i] == r0[i] && r@[j] == r0[j]);
            } else if i < p && j == p {
                assert(r@[i] == r0[i]);
                assert(r0[i].timestamp <= r0[p - 1].timestamp);
            } else if i < p {
                assert(r@[i] == r0[i]);
                assert(r@[j] == r0[j - 1]);
            } else if i == p && j > p {
                assert(r@[j] == r0[j - 1]);
            } else if i > p {
                assert(r@[i] == r0[i - 1]);
                assert(r@[j] == r0[j - 1]);
            }
        }
    }
    p
}

/// The storage engine: pending updates, snapshots, blobs and peer cursors,
/// behind an explicit open/close lifecycle.
pub struct DocStorage {
    path: String,
    state: ConnState,
    updates: UpdateLog,
    snapshots: SnapshotStore,
    blobs: BlobStore,
    peer_clocks: PeerClockTable,
    peer_pushed_clocks: PeerClockTable,
}

impl View for DocStorage {
    type V = StorageModel;

    closed spec fn view(&self) -> StorageModel {
        StorageModel {
            state: self.state,
            updates: self.updates@,
            snapshots: self.snapshots@,
            blobs: self.blobs@,
            peer_clocks: self.peer_clocks@,
            peer_pushed_clocks: self.peer_pushed_clocks@,
        }
    }
}

impl DocStorage {
    pub closed spec fn wf(&self) -> bool {
        &&& self.updates.wf()
        &&& self.snapshots.wf()
        &&& self.blobs.wf()
        &&& self.peer_clocks.wf()
        &&& self.peer_pushed_clocks.wf()
    }

    /// The location the store was created for.
    pub closed spec fn spec_path(&self) -> Seq<char> {
        self.path@
    }

    /// A store for `path`, not initialised yet and empty.
    pub fn new(path: String) -> (r: Self)
        ensures
            r.wf(),
            r.spec_path() == path@,
            r@.state == ConnState::Created,
            r@.updates == Map::<(Seq<char>, int), Seq<u8>>::empty(),
            r@.snapshots == Map::<Seq<char>, (Seq<u8>, int)>::empty(),
            r@.blobs == Map::<Seq<char>, crate::types::BlobModel>::empty(),
            r@.peer_clocks == Map::<(Seq<char>, Seq<char>), int>::empty(),
            r@.peer_pushed_clocks == Map::<(Seq<char>, Seq<char>), int>::empty(),
    {
        DocStorage {
            path,
            state: ConnState::Created,
            updates: UpdateLog::new(),
            snapshots: SnapshotStore::new(),
            blobs: BlobStore::new(),
            peer_clocks: PeerClockTable::new(),
            peer_pushed_clocks: PeerClockTable::new(),
        }
    }

    /// The location the store was created for.
    pub fn path(&self) -> (r: &String)
        ensures
            r@ == self.spec_path(),
    {
        &self.path
    }

    /// Opens the store; a closed store stays closed.
    pub fn init(&mut self) -> (r: Result<(), StorageError>)
        requires
            old(self).wf(),
        ensures
            final(self).wf(),
            final(self).spec_path() == old(self).spec_path(),
            old(self)@.state == ConnState::Closed ==> r == Err::<(), StorageError>(StorageError::Closed)
                && final(self)@ == old(self)@,
            old(self)@.state != ConnState::Closed ==> r is Ok && final(self)@ == (StorageModel {
                state: ConnState::Open,
                ..old(self)@
            }),
    {
        if self.state == ConnState::Closed {
            Err(StorageError::Closed)
        } else {
            self.state = ConnState::Open;
            Ok(())
        }
    }

    /// Closes the store; every later operation fails.
    pub fn close(&mut self)
        requires
            old(self).wf(),
        ensures
            final(self).wf(),
            final(self).spec_path() == old(self).spec_path(),
            final(self)@ == (StorageModel { state: ConnState::Closed, ..old(self)@ }),
    {
        self.state = ConnState::Closed;
    }

    pub fn is_closed(&self) -> (r: bool)
        ensures
            r == (self@.state == ConnState::Closed),
    {
        self.state == ConnState::Closed
    }

    fn check_open(&self) -> (r: Result<(), StorageError>)
        ensures
            r is Ok <==> self@.state == ConnState::Open,
            r matches Err(e) ==> e == failure(self@.state),
    {
        match self.state {
            ConnState::Open => Ok(()),
            ConnState::Created => Err(StorageError::NotInitialized),
            ConnState::Closed => Err(StorageError::Closed),
        }
    }

    /// Makes every write durable; nothing is buffered in this store, so
    /// only the state decides.
    pub fn checkpoint(&self) -> (r: Result<(), StorageError>)
        ensures
            r is Ok <==> self@.state == ConnState::Open,
            r matches Err(e) ==> e == failure(self@.state),
    {
        self.check_open()
    }

    /// Ingests a batch of (timestamp, payload) for one document in one step;
    /// a (document, timestamp) already stored is skipped. Gives how many
    /// were new.
    pub fn push_updates(&mut self, doc_id: String, updates: Vec<(i64, Vec<u8>)>) -> (r: Result<u32, StorageError>)
        requires
            old(self).wf(),
            updates@.len() <= u32::MAX,
        ensures
            final(self).wf(),
            final(self).spec_path() == old(self).spec_path(),
            old(self)@.state != ConnState::Open ==> r == Err::<u32, StorageError>(failure(old(self)@.state))
                && final(self)@ == old(self)@,
            old(self)@.state == ConnState::Open ==> (r matches Ok(n) && n as nat == ingest(
                old(self)@.updates,
                doc_id@,
                batch_view(updates@),
            ).1 && final(self)@ == (StorageModel {
                updates: ingest(old(self)@.updates, doc_id@, batch_view(updates@)).0,
                ..old(self)@
            })),
    {
        match self.check_open() {
            Err(e) => Err(e),
            Ok(()) => Ok(self.updates.push_updates(&doc_id, &updates)),
        }
    }

    /// The snapshot of one document, if it has one.
    pub fn get_doc_snapshot(&self, doc_id: String) -> (r: Result<Option<DocRecord>, StorageError>)
        requires
            self.wf(),
        ensures
            self@.state != ConnState::Open ==> r == Err::<Option<DocRecord>, StorageError>(failure(self@.state)),
            self@.state == ConnState::Open ==> (r matches Ok(o) && (o is None <==> !self@.snapshots.contains_key(doc_id@))
                && (o matches Some(rec) ==> rec.doc_id@ == doc_id@ && self@.snapshots[doc_id@] == (
                rec.data@,
                rec.timestamp as int,
            ))),
    {
        match self.check_open() {
            Err(e) => Err(e),
            Ok(()) => Ok(self.snapshots.get(&doc_id)),
        }
    }

    /// Writes a snapshot unless the stored one has a later timestamp; tells
    /// whether it was written.
    pub fn set_doc_snapshot(&mut self, snapshot: DocRecord) -> (r: Result<bool, StorageError>)
        requires
            old(self).wf(),
        ensures
            final(self).wf(),
            final(self).spec_path() == old(self).spec_path(),
            old(self)@.state != ConnState::Open ==> r == Err::<bool, StorageError>(failure(old(self)@.state))
                && final(self)@ == old(self)@,
            old(self)@.state == ConnState::Open ==> (r matches Ok(applied) && applied == snapshot_applies(
                old(self)@.snapshots,
                snapshot.doc_id@,
                snapshot.timestamp as int,
            ) && final(self)@ == (StorageModel {
                snapshots: if applied {
                    old(self)@.snapshots.insert(snapshot.doc_id@, (snapshot.data@, snapshot.timestamp as int))
                } else {
                    old(self)@.snapshots
                },
                ..old(self)@
            })),
    {
        match self.check_open() {
            Err(e) => Err(e),
            Ok(()) => Ok(self.snapshots.set(snapshot)),
        }
    }

    /// The pending updates of one document, by ascending timestamp.
    pub fn get_doc_updates(&self, doc_id: String) -> (r: Result<Vec<DocUpdate>, StorageError>)
        requires
            self.wf(),
        ensures
            self@.state != ConnState::Open ==> r == Err::<Vec<DocUpdate>, StorageError>(failure(self@.state)),
            self@.state == ConnState::Open ==> (r matches Ok(v) && lists_doc_updates(self@.updates, doc_id@, v@)),
    {
        match self.check_open() {
            Err(e) => Err(e),
            Ok(()) => Ok(self.updates.updates_of(&doc_id)),
        }
    }

    /// Removes the listed updates of one document once they are folded into
    /// a snapshot; timestamps not there are passed over. Gives how many
    /// were removed.
    pub fn mark_updates_merged(&mut self, doc_id: String, updates: Vec<i64>) -> (r: Result<u32, StorageError>)
        requires
            old(self).wf(),
            updates@.len() <= u32::MAX,
        ensures
            final(self).wf(),
            final(self).spec_path() == old(self).spec_path(),
            old(self)@.state != ConnState::Open ==> r == Err::<u32, StorageError>(failure(old(self)@.state))
                && final(self)@ == old(self)@,
            old(self)@.state == ConnState::Open ==> (r matches Ok(n) && n as nat == acknowledge(
                old(self)@.updates,
                doc_id@,
                updates@.map_values(|t: i64| t as int),
            ).1 && final(self)@ == (StorageModel {
                updates: acknowledge(old(self)@.updates, doc_id@, updates@.map_values(|t: i64| t as int)).0,
                ..old(self)@
            })),
    {
        match self.check_open() {
            Err(e) => Err(e),
            Ok(()) => Ok(self.updates.mark_merged(&doc_id, &updates)),
        }
    }

    /// Removes a document for good: its snapshot and all its pending updates.
    pub fn delete_doc(&mut self, doc_id: String) -> (r: Result<(), StorageError>)
        requires
            old(self).wf(),
        ensures
            final(self).wf(),
            final(self).spec_path() == old(self).spec_path(),
            old(self)@.state != ConnState::Open ==> r == Err::<(), StorageError>(failure(old(self)@.state))
                && final(self)@ == old(self)@,
            old(self)@.state == ConnState::Open ==> r is Ok && final(self)@ == (StorageModel {
                updates: without_doc(old(self)@.updates, doc_id@),
                snapshots: old(self)@.snapshots.remove(doc_id@),
                ..old(self)@
            }),
    {
        match self.check_open() {
            Err(e) => Err(e),
            Ok(()) => {
                self.snapshots.delete(&doc_id);
                self.updates.delete_doc(&doc_id);
                Ok(())
            },
        }
    }

    fn doc_clock(&self, doc_id: &String) -> (r: Option<i64>)
        requires
            self.wf(),
        ensures
            r is None <==> !doc_exists(self@, doc_id@),
            r matches Some(c) ==> is_doc_clock(self@, doc_id@, c as int),
    {
        let snap = self.snapshots.get(doc_id);
        let latest = self.updates.latest_of(doc_id);
        match snap {
            Some(rec) => match latest {
                Some(t) => {
                    if t > rec.timestamp {
                        Some(t)
                    } else {
                        Some(rec.timestamp)
                    }
                },
                None => Some(rec.timestamp),
            },
            None => latest,
        }
    }

    /// The clock of every document whose clock is past the cursor (of all
    /// documents, without one), by ascending clock.
    pub fn get_doc_clocks(&self, after: Option<i64>) -> (r: Result<Vec<DocClock>, StorageError>)
        requires
            self.wf(),
        ensures
            self@.state != ConnState::Open ==> r == Err::<Vec<DocClock>, StorageError>(failure(self@.state)),
            self@.state == ConnState::Open ==> (r matches Ok(v) && lists_doc_clocks(self@, after, v@)),
    {
        if let Err(e) = self.check_open() {
            return Err(e);
        }
        let snaps = self.snapshots.doc_ids();
        let pend = self.updates.doc_ids();
        let mut r: Vec<DocClock> = Vec::new();
        let mut i: usize = 0;
        while i < snaps.len()
            invariant
                self.wf(),
                i <= snaps@.len(),
                forall|a: int, b: int| 0 <= a < b < snaps@.len() ==> snaps@[a]@ != snaps@[b]@,
                forall|a: int| 0 <= a < snaps@.len() ==> self@.snapshots.contains_key(#[trigger] snaps@[a]@),
                clocks_sorted(r@),
                docs_distinct(r@),
                clocks_valid(self@, after, r@),
                forall|d: Seq<char>| #[trigger] lists_doc(r@, d) ==> exists|a: int| 0 <= a < i && snaps@[a]@ == d,
                forall|a: int|
                    0 <= a < i ==> lists_doc(r@, #[trigger] snaps@[a]@) || exists|c: int|
                        is_doc_clock(self@, snaps@[a]@, c) && !after_cursor(after, c),
            decreases snaps@.len() - i,
        {
            let ghost d = snaps@[i as int]@;
            match self.doc_clock(&snaps[i]) {
                Some(c) => {
                    let pass = match after {
                        Some(a) => c > a,
                        None => true,
                    };
                    if pass {
                        let item = DocClock { doc_id: snaps[i].clone(), timestamp: c };
                        let ghost r0 = r@;
                        proof {
                            if lists_doc(r0, d) {
                                let a = choose|a: int| 0 <= a < i && #[trigger] snaps@[a]@ == d;
                                assert(snaps@[a]@ != snaps@[i as int]@);
                            }
                        }
                        let p = insert_by_clock(&mut r, item);
                        proof {
                            lemma_insert_clock(self@, after, r0, p as int, item);
                            assert forall|x: Seq<char>| #[trigger] lists_doc(r@, x) implies exists|a: int|
                                0 <= a < i + 1 && snaps@[a]@ == x by {
                                if x != d {
                                    assert(lists_doc(r0, x));
                                } else {
                                    assert(snaps@[i as int]@ == x);
                                }
                            }
                        }
                    } else {
                        proof {
                            assert(is_doc_clock(self@, d, c as int) && !after_cursor(after, c as int));
                        }
                    }
                },
                None => {},
            }
            i = i + 1;
        }
        let mut j: usize = 0;
        while j < pend.len()
            invariant
                self.wf(),
                forall|a: int, b: int| 0 <= a < b < pend@.len() ==> pend@[a]@ != pend@[b]@,
                forall|a: int| 0 <= a < pend@.len() ==> has_pending(self@.updates, #[trigger] pend@[a]@),
                forall|d: Seq<char>| has_pending(self@.updates, d) ==> exists|a: int| 0 <= a < pend@.len() && #[trigger] pend@[a]@ == d,
                forall|d: Seq<char>|
                    #[trigger] self@.snapshots.contains_key(d) ==> exists|a: int| 0 <= a < snaps@.len() && snaps@[a]@ == d,
                j <= pend@.len(),
                clocks_sorted(r@),
                docs_distinct(r@),
                clocks_valid(self@, after, r@),
                forall|d: Seq<char>|
                    #[trigger] lists_doc(r@, d) ==> (exists|a: int| 0 <= a < snaps@.len() && snaps@[a]@ == d)
                        || (exists|b: int| 0 <= b < j && pend@[b]@ == d),
                forall|a: int|
                    0 <= a < snaps@.len() ==> lists_doc(r@, #[trigger] snaps@[a]@) || exists|c: int|
                        is_doc_clock(self@, snaps@[a]@, c) && !after_cursor(after, c),
                forall|b: int|
                    0 <= b < j ==> lists_doc(r@, #[trigger] pend@[b]@) || exists|c: int|
                        is_doc_clock(self@, pend@[b]@, c) && !after_cursor(after, c),
            decreases pend@.len() - j,
        {
            let ghost d = pend@[j as int]@;
            if !contains_string(&snaps, &pend[j]) {
                match self.doc_clock(&pend[j]) {
                    Some(c) => {
                        let pass = match after {
                            Some(a) => c > a,
                            None => true,
                        };
                        if pass {
                            let item = DocClock { doc_id: pend[j].clone(), timestamp: c };
                            let ghost r0 = r@;
                            proof {
                                if lists_doc(r0, d) {
                                    if exists|b: int| 0 <= b < j && #[trigger] pend@[b]@ == d {
                                        let b = choose|b: int| 0 <= b < j && #[trigger] pend@[b]@ == d;
                                        assert(pend@[b]@ != pend@[j as int]@);
                                    }
                                }
                            }
                            let p = insert_by_clock(&mut r, item);
                            proof {
                                lemma_insert_clock(self@, after, r0, p as int, item);
                                assert forall|x: Seq<char>| #[trigger] lists_doc(r@, x) implies (exists|a: int|
                                    0 <= a < snaps@.len() && snaps@[a]@ == x) || (exists|b: int|
                                    0 <= b < j + 1 && pend@[b]@ == x) by {
                                    if x == d {
                                        assert(pend@[j as int]@ == x);
                                    } else {
                                        assert(lists_doc(r0, x));
                                    }
                                }
                            }
                        } else {
                            proof {
                                assert(is_doc_clock(self@, d, c as int) && !after_cursor(after, c as int));
                            }
                        }
                    },
                    None => {},
                }
            }
            j = j + 1;
        }
        proof {
            assert forall|d: Seq<char>| #[trigger] doc_exists(self@, d) implies lists_doc(r@, d) || exists|c: int|
                is_doc_clock(self@, d, c) && !after_cursor(after, c) by {
                if self@.snapshots.contains_key(d) {
                    let a = choose|a: int| 0 <= a < snaps@.len() && snaps@[a]@ == d;
                    assert(lists_doc(r@, snaps@[a]@) || exists|c: int|
                        is_doc_clock(self@, snaps@[a]@, c) && !after_cursor(after, c));
                } else {
                    let b = choose|b: int| 0 <= b < pend@.len() && #[trigger] pend@[b]@ == d;
                    assert(lists_doc(r@, pend@[b]@) || exists|c: int|
                        is_doc_clock(self@, pend@[b]@, c) && !after_cursor(after, c));
                }
            }
            assert forall|d: Seq<char>, c: int| #[trigger] is_doc_clock(self@, d, c) && after_cursor(after, c) implies lists_doc(
                r@,
                d,
            ) by {
                if self@.updates.contains_key((d, c)) {
                    assert(has_pending(self@.updates, d));
                }
                assert(doc_exists(self@, d));
                if !lists_doc(r@, d) {
                    let c2 = choose|c2: int| is_doc_clock(self@, d, c2) && !after_cursor(after, c2);
                    lemma_clock_unique(self@, d, c, c2);
                }
            }
        }
        Ok(r)
    }

    /// The blob under `key`, if any. A blob marked deleted stays readable
    /// until it is removed for good.
    pub fn get_blob(&self, key: String) -> (r: Result<Option<Blob>, StorageError>)
        requires
            self.wf(),
        ensures
            self@.state != ConnState::Open ==> r == Err::<Option<Blob>, StorageError>(failure(self@.state)),
            self@.state == ConnState::Open ==> (r matches Ok(o) && (o is None <==> !self@.blobs.contains_key(key@))
                && (o matches Some(b) ==> {
                let m = self@.blobs[key@];
                &&& b.key@ == key@
                &&& b.data@ == m.data
                &&& b.mime@ == m.mime
                &&& b.size as int == m.size
                &&& b.created_at as int == m.created_at
            })),
    {
        match self.check_open() {
            Err(e) => Err(e),
            Ok(()) => Ok(self.blobs.get(&key)),
        }
    }

    /// Stores a blob at time `now`: replaces payload, type and size of one
    /// already there, keeping its creation time, and clears any deletion mark.
    pub fn set_blob(&mut self, blob: SetBlob, now: i64) -> (r: Result<(), StorageError>)
        requires
            old(self).wf(),
        ensures
            final(self).wf(),
            final(self).spec_path() == old(self).spec_path(),
            old(self)@.state != ConnState::Open ==> r == Err::<(), StorageError>(failure(old(self)@.state))
                && final(self)@ == old(self)@,
            old(self)@.state == ConnState::Open ==> r is Ok && final(self)@ == (StorageModel {
                blobs: old(self)@.blobs.insert(
                    blob.key@,
                    blob_after_set(old(self)@.blobs, blob.key@, blob.data@, blob.mime@, now as int),
                ),
                ..old(self)@
            }),
    {
        match self.check_open() {
            Err(e) => Err(e),
            Ok(()) => {
                self.blobs.set(blob, now);
                Ok(())
            },
        }
    }

    /// Removes a blob outright, or marks it deleted at time `now` and hides
    /// it from the listing.
    pub fn delete_blob(&mut self, key: String, permanently: bool, now: i64) -> (r: Result<(), StorageError>)
        requires
            old(self).wf(),
        ensures
            final(self).wf(),
            final(self).spec_path() == old(self).spec_path(),
            old(self)@.state != ConnState::Open ==> r == Err::<(), StorageError>(failure(old(self)@.state))
                && final(self)@ == old(self)@,
            old(self)@.state == ConnState::Open ==> r is Ok && final(self)@ == (StorageModel {
                blobs: blobs_after_delete(old(self)@.blobs, key@, permanently, now as int),
                ..old(self)@
            }),
    {
        match self.check_open() {
            Err(e) => Err(e),
            Ok(()) => {
                self.blobs.delete(&key, permanently, now);
                Ok(())
            },
        }
    }

    /// Removes for good every blob marked deleted. The mark is read in the
    /// same step that removes the row, so a blob set again since it was
    /// marked stays.
    pub fn release_blobs(&mut self) -> (r: Result<(), StorageError>)
        requires
            old(self).wf(),
        ensures
            final(self).wf(),
            final(self).spec_path() == old(self).spec_path(),
            old(self)@.state != ConnState::Open ==> r == Err::<(), StorageError>(failure(old(self)@.state))
                && final(self)@ == old(self)@,
            old(self)@.state == ConnState::Open ==> r is Ok && final(self)@ == (StorageModel {
                blobs: live_blobs(old(self)@.blobs),
                ..old(self)@
            }),
    {
        match self.check_open() {
            Err(e) => Err(e),
            Ok(()) => {
                self.blobs.release();
                Ok(())
            },
        }
    }

    /// The metadata of every blob not marked deleted, by ascending creation time.
    pub fn list_blobs(&self) -> (r: Result<Vec<ListedBlob>, StorageError>)
        requires
            self.wf(),
        ensures
            self@.state != ConnState::Open ==> r == Err::<Vec<ListedBlob>, StorageError>(failure(self@.state)),
            self@.state == ConnState::Open ==> (r matches Ok(v) && lists_live_blobs(self@.blobs, v@)),
    {
        match self.check_open() {
            Err(e) => Err(e),
            Ok(()) => Ok(self.blobs.list()),
        }
    }

    /// The clocks last received from `peer`, one per document.
    pub fn get_peer_clocks(&self, peer: String) -> (r: Result<Vec<DocClock>, StorageError>)
        requires
            self.wf(),
        ensures
            self@.state != ConnState::Open ==> r == Err::<Vec<DocClock>, StorageError>(failure(self@.state)),
            self@.state == ConnState::Open ==> (r matches Ok(v) && lists_peer_clocks(self@.peer_clocks, peer@, v@)),
    {
        match self.check_open() {
            Err(e) => Err(e),
            Ok(()) => Ok(self.peer_clocks.clocks_of(&peer)),
        }
    }

    /// Records the clock last received from `peer` for one document.
    pub fn set_peer_clock(&mut self, peer: String, doc_id: String, clock: i64) -> (r: Result<(), StorageError>)
        requires
            old(self).wf(),
        ensures
            final(self).wf(),
            final(self).spec_path() == old(self).spec_path(),
            old(self)@.state != ConnState::Open ==> r == Err::<(), StorageError>(failure(old(self)@.state))
                && final(self)@ == old(self)@,
            old(self)@.state == ConnState::Open ==> r is Ok && final(self)@ == (StorageModel {
                peer_clocks: old(self)@.peer_clocks.insert((peer@, doc_id@), clock as int),
                ..old(self)@
            }),
    {
        match self.check_open() {
            Err(e) => Err(e),
            Ok(()) => {
                self.peer_clocks.set(peer, doc_id, clock);
                Ok(())
            },
        }
    }

    /// The clocks last sent to `peer`, one per document.
    pub fn get_peer_pushed_clocks(&self, peer: String) -> (r: Result<Vec<DocClock>, StorageError>)
        requires
            self.wf(),
        ensures
            self@.state != ConnState::Open ==> r == Err::<Vec<DocClock>, StorageError>(failure(self@.state)),
            self@.state == ConnState::Open ==> (r matches Ok(v) && lists_peer_clocks(
                self@.peer_pushed_clocks,
                peer@,
                v@,
            )),
    {
        match self.check_open() {
            Err(e) => Err(e),
            Ok(()) => Ok(self.peer_pushed_clocks.clocks_of(&peer)),
        }
    }

    /// Records the clock last sent to `peer` for one document.
    pub fn set_peer_pushed_clock(&mut self, peer: String, doc_id: String, clock: i64) -> (r: Result<(), StorageError>)
        requires
            old(self).wf(),
        ensures
            final(self).wf(),
            final(self).spec_path() == old(self).spec_path(),
            old(self)@.state != ConnState::Open ==> r == Err::<(), StorageError>(failure(old(self)@.state))
                && final(self)@ == old(self)@,
            old(self)@.state == ConnState::Open ==> r is Ok && final(self)@ == (StorageModel {
                peer_pushed_clocks: old(self)@.peer_pushed_clocks.insert((peer@, doc_id@), clock as int),
                ..old(self)@
            }),
    {
        match self.check_open() {
            Err(e) => Err(e),
            Ok(()) => {
                self.peer_pushed_clocks.set(peer, doc_id, clock);
                Ok(())
            },
        }
    }
}

} // verus!
