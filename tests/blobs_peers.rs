use doc_storage::storage::DocStorage;
use doc_storage::types::{SetBlob, StorageError};

fn open_store() -> DocStorage {
    let mut s = DocStorage::new(String::from("blobs.db"));
    assert_eq!(s.init(), Ok(()));
    s
}

fn blob(key: &str, data: &[u8], mime: &str) -> SetBlob {
    SetBlob { key: String::from(key), data: data.to_vec(), mime: String::from(mime) }
}

fn keys(st: &DocStorage) -> Vec<String> {
    st.list_blobs().unwrap().into_iter().map(|b| b.key).collect()
}

#[test]
fn set_and_get_blob() {
    let mut st = open_store();
    assert_eq!(st.set_blob(blob("k", b"hello", "text/plain"), 1000), Ok(()));
    let b = st.get_blob(String::from("k")).unwrap().unwrap();
    assert_eq!(b.key, "k");
    assert_eq!(b.data, b"hello".to_vec());
    assert_eq!(b.mime, "text/plain");
    assert_eq!(b.size, 5);
    assert_eq!(b.created_at, 1000);
    assert!(st.get_blob(String::from("missing")).unwrap().is_none());
}

#[test]
fn overwrite_keeps_creation_time() {
    let mut st = open_store();
    assert_eq!(st.set_blob(blob("k", b"a", "x/a"), 10), Ok(()));
    assert_eq!(st.set_blob(blob("k", b"bcd", "x/b"), 20), Ok(()));
    let b = st.get_blob(String::from("k")).unwrap().unwrap();
    assert_eq!((b.data, b.mime, b.size, b.created_at), (b"bcd".to_vec(), String::from("x/b"), 3, 10));
}

#[test]
fn soft_delete_hides_until_release() {
    let mut st = open_store();
    assert_eq!(st.set_blob(blob("a", b"1", "m"), 1), Ok(()));
    assert_eq!(st.set_blob(blob("b", b"22", "m"), 2), Ok(()));
    assert_eq!(st.delete_blob(String::from("a"), false, 3), Ok(()));
    assert_eq!(keys(&st), vec![String::from("b")]);
    let kept = st.get_blob(String::from("a")).unwrap().unwrap();
    assert_eq!(kept.data, b"1".to_vec());
    assert_eq!(st.release_blobs(), Ok(()));
    assert!(st.get_blob(String::from("a")).unwrap().is_none());
    assert_eq!(keys(&st), vec![String::from("b")]);
}

#[test]
fn permanent_delete_removes_row() {
    let mut st = open_store();
    assert_eq!(st.set_blob(blob("a", b"1", "m"), 1), Ok(()));
    assert_eq!(st.delete_blob(String::from("a"), true, 2), Ok(()));
    assert!(st.get_blob(String::from("a")).unwrap().is_none());
    assert!(keys(&st).is_empty());
    assert_eq!(st.delete_blob(String::from("never"), true, 3), Ok(()));
    assert_eq!(st.delete_blob(String::from("never"), false, 3), Ok(()));
}

#[test]
fn setting_trashed_blob_revives_it_before_sweep() {
    let mut st = open_store();
    assert_eq!(st.set_blob(blob("a", b"1", "m"), 1), Ok(()));
    assert_eq!(st.delete_blob(String::from("a"), false, 2), Ok(()));
    assert_eq!(st.set_blob(blob("a", b"2", "m"), 3), Ok(()));
    assert_eq!(st.release_blobs(), Ok(()));
    let b = st.get_blob(String::from("a")).unwrap().unwrap();
    assert_eq!(b.data, b"2".to_vec());
    assert_eq!(keys(&st), vec![String::from("a")]);
}

#[test]
fn listing_is_by_creation_time_without_payload() {
    let mut st = open_store();
    assert_eq!(st.set_blob(blob("late", b"xyz", "m1"), 30), Ok(()));
    assert_eq!(st.set_blob(blob("early", b"x", "m2"), 10), Ok(()));
    assert_eq!(st.set_blob(blob("mid", b"xy", "m3"), 20), Ok(()));
    let l = st.list_blobs().unwrap();
    let got: Vec<(String, i64, String, i64)> = l.into_iter().map(|b| (b.key, b.size, b.mime, b.created_at)).collect();
    assert_eq!(
        got,
        vec![
            (String::from("early"), 1, String::from("m2"), 10),
            (String::from("mid"), 2, String::from("m3"), 20),
            (String::from("late"), 3, String::from("m1"), 30),
        ]
    );
}

#[test]
fn blob_operations_fail_when_closed() {
    let mut st = open_store();
    st.close();
    assert_eq!(st.set_blob(blob("a", b"1", "m"), 1), Err(StorageError::Closed));
    assert_eq!(st.release_blobs(), Err(StorageError::Closed));
    assert_eq!(st.list_blobs().map(|v| v.len()), Err(StorageError::Closed));
    assert_eq!(st.get_blob(String::from("a")).map(|o| o.is_some()), Err(StorageError::Closed));
}

#[test]
fn peer_clocks_upsert_per_document() {
    let mut st = open_store();
    assert_eq!(st.set_peer_clock(String::from("p"), String::from("d1"), 5), Ok(()));
    assert_eq!(st.set_peer_clock(String::from("p"), String::from("d2"), 6), Ok(()));
    assert_eq!(st.set_peer_clock(String::from("p"), String::from("d1"), 9), Ok(()));
    assert_eq!(st.set_peer_clock(String::from("q"), String::from("d1"), 1), Ok(()));
    let mut got: Vec<(String, i64)> =
        st.get_peer_clocks(String::from("p")).unwrap().into_iter().map(|c| (c.doc_id, c.timestamp)).collect();
    got.sort();
    assert_eq!(got, vec![(String::from("d1"), 9), (String::from("d2"), 6)]);
    assert!(st.get_peer_clocks(String::from("nobody")).unwrap().is_empty());
}

#[test]
fn pushed_clocks_are_separate_from_received_clocks() {
    let mut st = open_store();
    assert_eq!(st.set_peer_pushed_clock(String::from("p"), String::from("d"), 7), Ok(()));
    assert!(st.get_peer_clocks(String::from("p")).unwrap().is_empty());
    let pushed = st.get_peer_pushed_clocks(String::from("p")).unwrap();
    assert_eq!(pushed.len(), 1);
    assert_eq!((pushed[0].doc_id.clone(), pushed[0].timestamp), (String::from("d"), 7));
    assert_eq!(st.set_peer_pushed_clock(String::from("p"), String::from("d"), 8), Ok(()));
    assert_eq!(st.get_peer_pushed_clocks(String::from("p")).unwrap()[0].timestamp, 8);
}

#[test]
fn peer_operations_fail_before_init() {
    let mut st = DocStorage::new(String::from("p.db"));
    assert_eq!(st.set_peer_clock(String::from("p"), String::from("d"), 1), Err(StorageError::NotInitialized));
    assert_eq!(st.get_peer_pushed_clocks(String::from("p")).map(|v| v.len()), Err(StorageError::NotInitialized));
}
