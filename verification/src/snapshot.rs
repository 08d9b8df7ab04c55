//! The versioned snapshot wrapper around a schema value. A structural change
//! tombstones the current value with `delete`, computes a new schema, and
//! writes it back with `update`; only if the enclosing transaction commits is
//! the new record persisted.

use vstd::prelude::*;

use crate::data::{copy_schema, Schema, SchemaV};

verus! {

/// A schema value together with its pending transactional state.
pub enum Snapshot {
    /// The value as last committed, with no change in flight.
    Committed(Schema),
    /// The value was tombstoned by the given transaction; no value is current.
    PendingDelete(u64, Schema),
    /// The given transaction replaced the old value (kept for rollback) with
    /// the new one, which is current to that transaction.
    PendingUpdate(u64, Schema, Schema),
}

pub enum SnapshotV {
    Committed(SchemaV),
    PendingDelete(u64, SchemaV),
    PendingUpdate(u64, SchemaV, SchemaV),
}

impl View for Snapshot {
    type V = SnapshotV;

    open spec fn view(&self) -> SnapshotV {
        match self {
            Snapshot::Committed(s) => SnapshotV::Committed(s@),
            Snapshot::PendingDelete(t, s) => SnapshotV::PendingDelete(*t, s@),
            Snapshot::PendingUpdate(t, o, n) => SnapshotV::PendingUpdate(*t, o@, n@),
        }
    }
}

/// The schema value a reader of the record observes, if any.
pub open spec fn spec_current(s: SnapshotV) -> Option<SchemaV> {
    match s {
        SnapshotV::Committed(v) => Some(v),
        SnapshotV::PendingDelete(_, _) => None,
        SnapshotV::PendingUpdate(_, _, n) => Some(n),
    }
}

/// What `delete` leaves behind and hands back.
pub open spec fn spec_delete(s: SnapshotV, txid: u64) -> (SnapshotV, Option<SchemaV>) {
    match s {
        SnapshotV::Committed(v) => (SnapshotV::PendingDelete(txid, v), Some(v)),
        SnapshotV::PendingDelete(_, v) => (SnapshotV::PendingDelete(txid, v), None),
        SnapshotV::PendingUpdate(_, _, n) => (SnapshotV::PendingDelete(txid, n), Some(n)),
    }
}

/// What `update` leaves behind: `new` becomes current to `txid`, the value
/// retained for rollback is kept.
pub open spec fn spec_update(s: SnapshotV, txid: u64, new: SchemaV) -> SnapshotV {
    match s {
        SnapshotV::Committed(v) => SnapshotV::PendingUpdate(txid, v, new),
        SnapshotV::PendingDelete(_, v) => SnapshotV::PendingUpdate(txid, v, new),
        SnapshotV::PendingUpdate(_, o, _) => SnapshotV::PendingUpdate(txid, o, new),
    }
}

impl Snapshot {
    /// Wraps a freshly created schema as the committed current value.
    pub fn new(schema: Schema) -> (r: Snapshot)
        ensures
            r@ == SnapshotV::Committed(schema@),
            spec_current(r@) == Some::<SchemaV>(schema@),
    {
        Snapshot::Committed(schema)
    }

    /// The schema value a reader observes, if any, taking the record apart.
    pub fn current_owned(self) -> (r: Option<Schema>)
        ensures
            match r {
                Some(s) => spec_current(self@) == Some(s@),
                None => spec_current(self@) is None,
            },
    {
        match self {
            Snapshot::Committed(s) => Some(s),
            Snapshot::PendingDelete(_, _) => None,
            Snapshot::PendingUpdate(_, _, n) => Some(n),
        }
    }

    /// Tombstones the current value under `txid`; returns the record and the
    /// value that was current before the call, or none if no value was
    /// current.
    pub fn delete(self, txid: u64) -> (r: (Snapshot, Option<Schema>))
        ensures
            r.0@ == spec_delete(self@, txid).0,
            match r.1 {
                Some(s) => spec_delete(self@, txid).1 == Some(s@),
                None => spec_delete(self@, txid).1 is None,
            },
    {
        match self {
            Snapshot::Committed(v) => {
                let kept = copy_schema(&v);
                (Snapshot::PendingDelete(txid, kept), Some(v))
            },
            Snapshot::PendingDelete(_, v) => (Snapshot::PendingDelete(txid, v), None),
            Snapshot::PendingUpdate(_, _, n) => {
                let kept = copy_schema(&n);
                (Snapshot::PendingDelete(txid, kept), Some(n))
            },
        }
    }

    /// Writes `new` as the value current to `txid`.
    pub fn update(self, txid: u64, new: Schema) -> (r: Snapshot)
        ensures
            r@ == spec_update(self@, txid, new@),
    {
        match self {
            Snapshot::Committed(v) => Snapshot::PendingUpdate(txid, v, new),
            Snapshot::PendingDelete(_, v) => Snapshot::PendingUpdate(txid, v, new),
            Snapshot::PendingUpdate(_, o, _) => Snapshot::PendingUpdate(txid, o, new),
        }
    }
}

} // verus!
