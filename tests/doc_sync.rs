use doc_storage::storage::DocStorage;
use doc_storage::types::{DocClock, DocRecord, StorageError};

fn open_store() -> DocStorage {
    let mut s = DocStorage::new(String::from("workspace.db"));
    assert_eq!(s.init(), Ok(()));
    s
}

fn s(x: &str) -> String {
    String::from(x)
}

fn snapshot(doc: &str, data: &[u8], ts: i64) -> DocRecord {
    DocRecord { doc_id: s(doc), data: data.to_vec(), timestamp: ts }
}

fn clocks(v: &[DocClock]) -> Vec<(String, i64)> {
    v.iter().map(|c| (c.doc_id.clone(), c.timestamp)).collect()
}

#[test]
fn merge_cycle_scenario() {
    let mut st = open_store();
    let pushed = st.push_updates(s("doc1"), vec![(100, b"u1".to_vec()), (200, b"u2".to_vec())]);
    assert_eq!(pushed, Ok(2));
    let ups = st.get_doc_updates(s("doc1")).unwrap();
    assert_eq!(ups.len(), 2);
    assert_eq!((ups[0].created_at, ups[0].data.clone()), (100, b"u1".to_vec()));
    assert_eq!((ups[1].created_at, ups[1].data.clone()), (200, b"u2".to_vec()));
    assert_eq!(st.mark_updates_merged(s("doc1"), vec![100]), Ok(1));
    let ups = st.get_doc_updates(s("doc1")).unwrap();
    assert_eq!(ups.len(), 1);
    assert_eq!((ups[0].created_at, ups[0].data.clone()), (200, b"u2".to_vec()));
    assert_eq!(st.set_doc_snapshot(snapshot("doc1", b"snap", 200)), Ok(true));
    assert_eq!(st.set_doc_snapshot(snapshot("doc1", b"snap2", 150)), Ok(false));
    let c = st.get_doc_clocks(Some(199)).unwrap();
    assert_eq!(clocks(&c), vec![(s("doc1"), 200)]);
}

#[test]
fn pushing_same_update_twice_stores_one_row() {
    let mut st = open_store();
    assert_eq!(st.push_updates(s("d"), vec![(5, vec![1, 2])]), Ok(1));
    assert_eq!(st.push_updates(s("d"), vec![(5, vec![1, 2])]), Ok(0));
    let ups = st.get_doc_updates(s("d")).unwrap();
    assert_eq!(ups.len(), 1);
    assert_eq!(ups[0].data, vec![1, 2]);
}

#[test]
fn duplicate_timestamp_in_one_batch_counts_once() {
    let mut st = open_store();
    assert_eq!(st.push_updates(s("d"), vec![(7, vec![1]), (7, vec![2]), (3, vec![3])]), Ok(2));
    let ups = st.get_doc_updates(s("d")).unwrap();
    assert_eq!(ups.len(), 2);
    assert_eq!((ups[0].created_at, ups[0].data.clone()), (3, vec![3]));
    assert_eq!((ups[1].created_at, ups[1].data.clone()), (7, vec![1]));
}

#[test]
fn updates_are_kept_per_document_in_timestamp_order() {
    let mut st = open_store();
    assert_eq!(st.push_updates(s("a"), vec![(30, vec![3]), (10, vec![1])]), Ok(2));
    assert_eq!(st.push_updates(s("b"), vec![(20, vec![2])]), Ok(1));
    let a = st.get_doc_updates(s("a")).unwrap();
    assert_eq!(a.iter().map(|u| u.created_at).collect::<Vec<_>>(), vec![10, 30]);
    assert!(a.iter().all(|u| u.doc_id == "a"));
    let b = st.get_doc_updates(s("b")).unwrap();
    assert_eq!(b.len(), 1);
    assert!(st.get_doc_updates(s("none")).unwrap().is_empty());
}

#[test]
fn snapshot_guard_rejects_older_and_accepts_equal_or_newer() {
    let mut st = open_store();
    assert!(st.get_doc_snapshot(s("d")).unwrap().is_none());
    assert_eq!(st.set_doc_snapshot(snapshot("d", b"t10", 10)), Ok(true));
    assert_eq!(st.set_doc_snapshot(snapshot("d", b"t9", 9)), Ok(false));
    let cur = st.get_doc_snapshot(s("d")).unwrap().unwrap();
    assert_eq!((cur.data, cur.timestamp), (b"t10".to_vec(), 10));
    assert_eq!(st.set_doc_snapshot(snapshot("d", b"again", 10)), Ok(true));
    let cur = st.get_doc_snapshot(s("d")).unwrap().unwrap();
    assert_eq!((cur.data, cur.timestamp), (b"again".to_vec(), 10));
    assert_eq!(st.set_doc_snapshot(snapshot("d", b"t11", 11)), Ok(true));
    let cur = st.get_doc_snapshot(s("d")).unwrap().unwrap();
    assert_eq!((cur.doc_id, cur.data, cur.timestamp), (s("d"), b"t11".to_vec(), 11));
}

#[test]
fn clocks_leave_out_documents_at_or_below_cursor() {
    let mut st = open_store();
    assert_eq!(st.push_updates(s("a"), vec![(100, vec![1])]), Ok(1));
    assert_eq!(st.push_updates(s("b"), vec![(300, vec![1])]), Ok(1));
    assert_eq!(st.set_doc_snapshot(snapshot("c", b"c", 200)), Ok(true));
    let c = st.get_doc_clocks(Some(200)).unwrap();
    assert_eq!(clocks(&c), vec![(s("b"), 300)]);
    let all = st.get_doc_clocks(None).unwrap();
    assert_eq!(clocks(&all), vec![(s("a"), 100), (s("c"), 200), (s("b"), 300)]);
}

#[test]
fn new_update_makes_document_appear_past_cursor() {
    let mut st = open_store();
    assert_eq!(st.set_doc_snapshot(snapshot("d", b"s", 50)), Ok(true));
    assert!(st.get_doc_clocks(Some(60)).unwrap().is_empty());
    assert_eq!(st.push_updates(s("d"), vec![(70, vec![9])]), Ok(1));
    let c = st.get_doc_clocks(Some(60)).unwrap();
    assert_eq!(clocks(&c), vec![(s("d"), 70)]);
    let c = st.get_doc_clocks(Some(69)).unwrap();
    assert_eq!(clocks(&c), vec![(s("d"), 70)]);
}

#[test]
fn clock_is_max_of_snapshot_and_pending_updates() {
    let mut st = open_store();
    assert_eq!(st.push_updates(s("d"), vec![(10, vec![1]), (40, vec![2])]), Ok(2));
    assert_eq!(st.set_doc_snapshot(snapshot("d", b"s", 30)), Ok(true));
    assert_eq!(clocks(&st.get_doc_clocks(None).unwrap()), vec![(s("d"), 40)]);
    assert_eq!(st.mark_updates_merged(s("d"), vec![10, 40]), Ok(2));
    assert_eq!(clocks(&st.get_doc_clocks(None).unwrap()), vec![(s("d"), 30)]);
}

#[test]
fn acknowledging_absent_timestamps_removes_nothing() {
    let mut st = open_store();
    assert_eq!(st.push_updates(s("d"), vec![(1, vec![1]), (2, vec![2])]), Ok(2));
    assert_eq!(st.mark_updates_merged(s("d"), vec![5, 6]), Ok(0));
    assert_eq!(st.mark_updates_merged(s("other"), vec![1, 2]), Ok(0));
    assert_eq!(st.get_doc_updates(s("d")).unwrap().len(), 2);
    assert_eq!(st.mark_updates_merged(s("d"), vec![1, 1, 9]), Ok(1));
    assert_eq!(st.mark_updates_merged(s("d"), vec![1]), Ok(0));
    assert_eq!(st.get_doc_updates(s("d")).unwrap().len(), 1);
}

#[test]
fn delete_doc_removes_snapshot_and_updates() {
    let mut st = open_store();
    assert_eq!(st.push_updates(s("d"), vec![(1, vec![1]), (2, vec![2])]), Ok(2));
    assert_eq!(st.push_updates(s("keep"), vec![(3, vec![3])]), Ok(1));
    assert_eq!(st.set_doc_snapshot(snapshot("d", b"s", 2)), Ok(true));
    assert_eq!(st.delete_doc(s("d")), Ok(()));
    assert!(st.get_doc_snapshot(s("d")).unwrap().is_none());
    assert!(st.get_doc_updates(s("d")).unwrap().is_empty());
    assert_eq!(st.get_doc_updates(s("keep")).unwrap().len(), 1);
    assert_eq!(clocks(&st.get_doc_clocks(None).unwrap()), vec![(s("keep"), 3)]);
}

#[test]
fn operations_fail_before_init_and_after_close() {
    let mut st = DocStorage::new(s("x.db"));
    assert_eq!(st.path(), "x.db");
    assert!(!st.is_closed());
    assert_eq!(st.push_updates(s("d"), vec![(1, vec![1])]), Err(StorageError::NotInitialized));
    assert_eq!(st.checkpoint(), Err(StorageError::NotInitialized));
    assert_eq!(st.init(), Ok(()));
    assert_eq!(st.checkpoint(), Ok(()));
    assert_eq!(st.push_updates(s("d"), vec![(1, vec![1])]), Ok(1));
    st.close();
    assert!(st.is_closed());
    assert_eq!(st.get_doc_updates(s("d")).map(|v| v.len()), Err(StorageError::Closed));
    assert_eq!(st.get_doc_clocks(None).map(|v| v.len()), Err(StorageError::Closed));
    assert_eq!(st.init(), Err(StorageError::Closed));
    assert_eq!(st.delete_doc(s("d")), Err(StorageError::Closed));
}
