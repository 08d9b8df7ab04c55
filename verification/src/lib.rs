pub mod bytes;
pub mod codec;
pub mod data;
pub mod index_sync;
pub mod keys;
pub mod kv;
pub mod laws;
pub mod model;
pub mod snapshot;
pub mod store;

use vstd::prelude::*;

verus! {

/// Errors surfaced by the storage adapter.
#[derive(Clone, PartialEq, Eq, Structural, Debug)]
pub enum Error {
    TableNotFound,
    ConflictTableNotFound,
    IndexNameAlreadyExists,
    IndexNameDoesNotExist,
    ConflictOnEmptyIndexValueUpdate,
    ConflictOnEmptyIndexValueDelete,
    LockConflict,
    Deserialize,
    Evaluate,
}

} // verus!
