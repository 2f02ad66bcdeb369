//! The command protocol: shard-level commands, database-level commands,
//! and the request execution a shard worker performs.
use vstd::prelude::*;
use serde_json::Value;
use crate::store::{path_of, store_get, store_set, EntryStore};

verus! {

/// A command executed against one shard's private entry store.
pub enum DataCommand {
    /// Write `value` at key path `key` of the addressed entry.
    SetValue { key: Vec<String>, value: Value },
    /// Read the value at key path `key` of the addressed entry.
    Get { key: Vec<String> },
    /// Stop the shard's worker loop; the only command not tied to an
    /// entry id, and always the last message a shard processes.
    ShutdownShardedCollection,
}

/// One request delivered to a shard: the addressed entry id and the
/// command to run against it. The runtime pairs it with a write-once
/// result slot that the worker signals exactly once.
pub struct RequestData {
    pub id: String,
    pub command: DataCommand,
}

/// The errors a database command reports. `NotFound` and `AlreadyExists`
/// are expected, recoverable conditions; `Internal` marks a violation of
/// the request protocol.
#[derive(PartialEq, Eq, Structural, Clone, Copy, Debug)]
pub enum DbError {
    /// The named collection is absent.
    NotFound,
    /// The named collection already exists.
    AlreadyExists,
    /// The request protocol was violated.
    Internal,
}

/// What a successful database command returns.
pub enum CommandOutput {
    /// Creation, destruction and `Set` return nothing.
    Done,
    /// `Get` returns the value at the addressed path, if any.
    Entry(Option<Value>),
    /// Listing returns the collection names, in creation order.
    Names(Vec<String>),
}

/// The outcome of one database command.
pub type DbCommandResult = Result<CommandOutput, DbError>;

/// A database-level command, dispatched by `Ruko::run_command`.
pub enum DbCommand {
    CreateCollection { name: String },
    DestroyCollection { name: String },
    ExecuteOnEntry { collection_name: String, id: String, command: DataCommand },
    ListCollections,
}

/// Executes one request against a shard's private store and returns the
/// response to signal together with whether the worker loop must stop.
/// `Get` answers with the stored value and changes nothing; `SetValue`
/// writes and answers with nothing; shutdown changes nothing and stops
/// the loop.
pub fn process_request(store: &mut EntryStore, request: RequestData) -> (r: (Option<Value>, bool))
    ensures
        match request.command {
            DataCommand::SetValue { key, value } => {
                &&& final(store)@ == store_set(old(store)@, request.id@, path_of(key@), value)
                &&& r == (Option::<Value>::None, false)
            },
            DataCommand::Get { key } => {
                &&& final(store)@ == old(store)@
                &&& r.0 == store_get(old(store)@, request.id@, path_of(key@))
                &&& r.1 == false
            },
            DataCommand::ShutdownShardedCollection => {
                &&& final(store)@ == old(store)@
                &&& r == (Option::<Value>::None, true)
            },
        },
{
    match request.command {
        DataCommand::SetValue { key, value } => {
            store.set(request.id, key, value);
            (None, false)
        },
        DataCommand::Get { key } => {
            let v = store.get(&request.id, &key);
            (v, false)
        },
        DataCommand::ShutdownShardedCollection => (None, true),
    }
}

} // verus!
