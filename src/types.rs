use vstd::prelude::*;

verus! {

/// One pending update of a document, keyed by (document, timestamp).
#[derive(Debug)]
pub struct DocUpdate {
    pub doc_id: String,
    pub created_at: i64,
    pub data: Vec<u8>,
}

/// A document's compacted snapshot and the timestamp it stands for.
#[derive(Debug)]
pub struct DocRecord {
    pub doc_id: String,
    pub data: Vec<u8>,
    pub timestamp: i64,
}

/// A clock of a document: when it last changed, or how far a peer has got.
#[derive(Debug)]
pub struct DocClock {
    pub doc_id: String,
    pub timestamp: i64,
}

/// What a caller hands over to store a blob.
#[derive(Debug)]
pub struct SetBlob {
    pub key: String,
    pub data: Vec<u8>,
    pub mime: String,
}

/// A stored blob with its payload.
#[derive(Debug)]
pub struct Blob {
    pub key: String,
    pub data: Vec<u8>,
    pub mime: String,
    pub size: i64,
    pub created_at: i64,
}

/// A stored blob's metadata, without its payload.
#[derive(Debug)]
pub struct ListedBlob {
    pub key: String,
    pub size: i64,
    pub mime: String,
    pub created_at: i64,
}

/// Why an operation on the store failed.
#[derive(Debug, Clone, Copy, PartialEq, Eq, Structural)]
pub enum StorageError {
    /// The store has not been initialised yet.
    NotInitialized,
    /// The store has been closed.
    Closed,
}

/// Where a store stands in its lifecycle.
#[derive(Debug, Clone, Copy, PartialEq, Eq, Structural)]
pub enum ConnState {
    Created,
    Open,
    Closed,
}

/// The error that an operation meets in a state other than open.
pub open spec fn failure(s: ConnState) -> StorageError {
    match s {
        ConnState::Created => StorageError::NotInitialized,
        _ => StorageError::Closed,
    }
}

/// A stored blob, as a value.
pub struct BlobModel {
    pub data: Seq<u8>,
    pub mime: Seq<char>,
    pub size: int,
    pub created_at: int,
    pub deleted_at: Option<int>,
}

/// Pending updates: (document, timestamp) to payload.
pub type UpdateMap = Map<(Seq<char>, int), Seq<u8>>;

/// Snapshots: document to (payload, timestamp).
pub type SnapshotMap = Map<Seq<char>, (Seq<u8>, int)>;

/// Peer cursors: (peer, document) to clock.
pub type PeerClockMap = Map<(Seq<char>, Seq<char>), int>;

/// The whole content of a store, as a value.
pub struct StorageModel {
    pub state: ConnState,
    pub updates: UpdateMap,
    pub snapshots: SnapshotMap,
    pub blobs: Map<Seq<char>, BlobModel>,
    pub peer_clocks: PeerClockMap,
    pub peer_pushed_clocks: PeerClockMap,
}

} // verus!
