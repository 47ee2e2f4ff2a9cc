use vstd::prelude::*;

use crate::blob::{blobs_after_delete, lists_live_blobs, live_blobs, BlobMap};
use crate::snapshot::snapshot_applies;
use crate::storage::{after_cursor, doc_exists, is_doc_clock, lists_doc, lists_doc_clocks};
use crate::types::{DocClock, DocUpdate, ListedBlob, SnapshotMap, StorageModel, UpdateMap};
use crate::update_log::{acknowledge, has_pending, ingest, lists_doc_updates, without_doc};

verus! {

proof fn lemma_ingest_grows(m: UpdateMap, d: Seq<char>, b: Seq<(int, Seq<u8>)>)
    ensures
        forall|k: (Seq<char>, int)| #[trigger] m.contains_key(k) ==> ingest(m, d, b).0.contains_key(k) && ingest(m, d, b).0[k] == m[k],
        forall|i: int| 0 <= i < b.len() ==> ingest(m, d, b).0.contains_key((d, #[trigger] b[i].0)),
        ingest(m, d, b).1 <= b.len(),
    decreases b.len(),
{
    if b.len() > 0 {
        let b0 = b.drop_last();
        lemma_ingest_grows(m, d, b0);
        assert forall|i: int| 0 <= i < b.len() implies ingest(m, d, b).0.contains_key((d, #[trigger] b[i].0)) by {
            if i < b.len() - 1 {
                assert(b[i] == b0[i]);
            }
        }
    }
}

proof fn lemma_ingest_known(m: UpdateMap, d: Seq<char>, b: Seq<(int, Seq<u8>)>)
    requires
        forall|i: int| 0 <= i < b.len() ==> m.contains_key((d, #[trigger] b[i].0)),
    ensures
        ingest(m, d, b) == (m, 0nat),
    decreases b.len(),
{
    if b.len() > 0 {
        let b0 = b.drop_last();
        assert forall|i: int| 0 <= i < b0.len() implies m.contains_key((d, #[trigger] b0[i].0)) by {
            assert(b0[i] == b[i]);
        }
        lemma_ingest_known(m, d, b0);
        assert(m.contains_key((d, b[b.len() - 1].0)));
    }
}

/// Ingesting a batch a second time changes nothing and counts nothing as new.
pub proof fn law_ingest_twice(m: UpdateMap, d: Seq<char>, b: Seq<(int, Seq<u8>)>)
    ensures
        ingest(ingest(m, d, b).0, d, b) == (ingest(m, d, b).0, 0nat),
{
    lemma_ingest_grows(m, d, b);
    lemma_ingest_known(ingest(m, d, b).0, d, b);
}

/// One update not stored yet is counted once when pushed, stored with its
/// payload, and counted zero when pushed again, which leaves one row.
pub proof fn law_ingest_one(m: UpdateMap, d: Seq<char>, t: int, p: Seq<u8>)
    requires
        !m.contains_key((d, t)),
    ensures
        ingest(m, d, seq![(t, p)]).1 == 1,
        ingest(m, d, seq![(t, p)]).0 == m.insert((d, t), p),
        ingest(ingest(m, d, seq![(t, p)]).0, d, seq![(t, p)]).1 == 0,
        ingest(ingest(m, d, seq![(t, p)]).0, d, seq![(t, p)]).0 == m.insert((d, t), p),
{
    let b = seq![(t, p)];
    assert(b.drop_last() =~= Seq::<(int, Seq<u8>)>::empty());
    assert(ingest(m, d, b.drop_last()) == (m, 0nat));
    assert(b.last() == (t, p));
    law_ingest_twice(m, d, b);
}

/// Against a stored snapshot, a write applies exactly when its timestamp is
/// not older; one that does not apply leaves the snapshot as it was.
pub proof fn law_snapshot_monotonic(m: SnapshotMap, d: Seq<char>, p: Seq<u8>, t: int)
    requires
        m.contains_key(d),
    ensures
        snapshot_applies(m, d, t) <==> m[d].1 <= t,
        t < m[d].1 ==> !snapshot_applies(m, d, t),
        m[d].1 <= t ==> m.insert(d, (p, t))[d] == (p, t),
{
}

/// A clock listing with a cursor holds no document whose clock is at or
/// below the cursor.
pub proof fn law_clocks_past_cursor(m: StorageModel, x: i64, r: Seq<DocClock>, i: int)
    requires
        lists_doc_clocks(m, Some(x), r),
        0 <= i < r.len(),
    ensures
        r[i].timestamp > x,
        is_doc_clock(m, r[i].doc_id@, r[i].timestamp as int),
{
}

/// Once an update with timestamp `t` of document `d` has been ingested,
/// every clock listing with a cursor below `t` holds `d`.
pub proof fn law_pushed_doc_listed(
    m: StorageModel,
    d: Seq<char>,
    t: int,
    p: Seq<u8>,
    x: i64,
    r: Seq<DocClock>,
)
    requires
        x < t,
        lists_doc_clocks(StorageModel { updates: ingest(m.updates, d, seq![(t, p)]).0, ..m }, Some(x), r),
    ensures
        lists_doc(r, d),
{
    let m2 = StorageModel { updates: ingest(m.updates, d, seq![(t, p)]).0, ..m };
    lemma_ingest_grows(m.updates, d, seq![(t, p)]);
    assert(seq![(t, p)][0].0 == t);
    assert(m2.updates.contains_key((d, t)));
    assert(has_pending(m2.updates, d));
    assert(doc_exists(m2, d));
    if !lists_doc(r, d) {
        let c = choose|c: int| is_doc_clock(m2, d, c) && !after_cursor(Some(x), c);
        assert(t <= c);
    }
}

/// Acknowledging timestamps that are not pending removes nothing and
/// counts zero.
pub proof fn law_acknowledge_absent(m: UpdateMap, d: Seq<char>, ts: Seq<int>)
    requires
        forall|i: int| 0 <= i < ts.len() ==> !m.contains_key((d, #[trigger] ts[i])),
    ensures
        acknowledge(m, d, ts) == (m, 0nat),
    decreases ts.len(),
{
    if ts.len() > 0 {
        let t0 = ts.drop_last();
        assert forall|i: int| 0 <= i < t0.len() implies !m.contains_key((d, #[trigger] t0[i])) by {
            assert(t0[i] == ts[i]);
        }
        law_acknowledge_absent(m, d, t0);
        assert(!m.contains_key((d, ts[ts.len() - 1])));
    }
}

/// After a document is deleted it has no snapshot, and its listing of
/// pending updates is empty.
pub proof fn law_delete_doc_tombstone(m: StorageModel, d: Seq<char>, r: Seq<DocUpdate>)
    requires
        lists_doc_updates(without_doc(m.updates, d), d, r),
    ensures
        !m.snapshots.remove(d).contains_key(d),
        r.len() == 0,
        !has_pending(without_doc(m.updates, d), d),
{
    if r.len() > 0 {
        assert(without_doc(m.updates, d).contains_key((d, r[0].created_at as int)));
    }
}

/// A blob marked deleted keeps its row but leaves every listing; the sweep
/// then removes it, and so does a removal for good.
pub proof fn law_blob_trash(m: BlobMap, key: Seq<char>, now: int, later: int, r: Seq<ListedBlob>)
    requires
        lists_live_blobs(blobs_after_delete(m, key, false, now), r),
    ensures
        forall|i: int| 0 <= i < r.len() ==> (#[trigger] r[i]).key@ != key,
        m.contains_key(key) ==> blobs_after_delete(m, key, false, now).contains_key(key)
            && blobs_after_delete(m, key, false, now)[key].data == m[key].data,
        !live_blobs(blobs_after_delete(m, key, false, now)).contains_key(key),
        !blobs_after_delete(blobs_after_delete(m, key, false, now), key, true, later).contains_key(key),
        !blobs_after_delete(m, key, true, later).contains_key(key),
{
    let m2 = blobs_after_delete(m, key, false, now);
    assert forall|i: int| 0 <= i < r.len() implies (#[trigger] r[i]).key@ != key by {
        if r[i].key@ == key {
            assert(m2[r[i].key@].deleted_at is None);
        }
    }
}

} // verus!
