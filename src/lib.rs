pub mod table;
pub mod types;
pub mod update_log;
pub mod snapshot;
pub mod blob;
pub mod peer;
pub mod storage;
pub mod laws;
