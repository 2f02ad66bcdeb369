//! In-process, sharded, in-memory key-value store.
//!
//! A database owns named collections; each collection partitions its
//! entries across a fixed number of shards. An operation on an entry is
//! routed deterministically to exactly one shard by hashing the entry id.
//! The shard stores semi-structured documents addressed by an entry id
//! and a path of nested keys.
pub mod assoc;
pub mod cmd;
pub mod db;
pub mod frame;
mod hashing;
pub mod router;
pub mod store;
pub mod value;

pub use cmd::{CommandOutput, DataCommand, DbCommand, DbCommandResult, DbError, RequestData};
pub use cmd::process_request;
pub use db::{Ruko, Shard, ShardedCollection};
pub use frame::{parse_frame, Frame, FrameError, FrameOp};
pub use hashing::calculate_hash;
pub use router::route;
pub use store::EntryStore;
