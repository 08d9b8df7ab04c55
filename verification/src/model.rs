//! The mathematical model of the mutation engine: what each operation does to
//! the keyspace, stated over sequences. Every public operation of the store
//! ensures that its result equals the model applied to the old state.

use vstd::prelude::*;

use crate::bytes::u64_be;
use crate::codec::{dec_row, dec_snapshot, enc_index_value, enc_row, enc_snapshot};
use crate::data::{SchemaIndexOrd, SchemaIndexV, SchemaV, Value, spec_eval};
use crate::keys::{
    spec_data_key, spec_data_prefix, spec_index_entry_key, spec_lock_key, spec_schema_key,
    spec_temp_key,
};
use crate::kv::{kv_contains, kv_get, kv_index};
use crate::snapshot::{spec_current, spec_delete, spec_update, SnapshotV};
use crate::Error;

verus! {

pub type KvS = Seq<(Seq<u8>, Seq<u8>)>;

/// Storing `v` at `k`: an existing key keeps its place, a new one is appended.
pub open spec fn kv_put(s: KvS, k: Seq<u8>, v: Seq<u8>) -> KvS {
    if kv_contains(s, k) {
        s.update(kv_index(s, k), (k, v))
    } else {
        s.push((k, v))
    }
}

/// Removing `k`, if present.
pub open spec fn kv_del(s: KvS, k: Seq<u8>) -> KvS {
    if kv_contains(s, k) {
        s.remove(kv_index(s, k))
    } else {
        s
    }
}

/// The entries whose key does not extend `p`, in store order.
pub open spec fn remove_prefix(s: KvS, p: Seq<u8>) -> KvS
    decreases s.len(),
{
    if s.len() == 0 {
        Seq::empty()
    } else {
        let rest = remove_prefix(s.drop_last(), p);
        if crate::bytes::is_prefix(p, s.last().0) {
            rest
        } else {
            rest.push(s.last())
        }
    }
}

/// The record installed at the lock key by a transaction: its id and one
/// byte saying whether it still runs.
pub open spec fn lock_record(txid: u64, live: bool) -> Seq<u8> {
    u64_be(txid) + seq![if live { 1u8 } else { 0u8 }]
}

/// A live writer holds the structural lock.
pub open spec fn lock_live(s: KvS) -> bool {
    match kv_get(s, spec_lock_key()) {
        Some(v) => v.len() == 9 && v[8] == 1,
        None => false,
    }
}

/// Reading the schema record of `table`: absent, undecodable, or a snapshot.
pub open spec fn sv_fetch_schema(s: KvS, table: Seq<u8>) -> Result<Option<SnapshotV>, Error> {
    match kv_get(s, spec_schema_key(table)) {
        None => Ok(None),
        Some(bytes) => match dec_snapshot(bytes) {
            None => Err(Error::Deserialize),
            Some(snap) => Ok(Some(snap)),
        },
    }
}

/// The committed schema of `table`, if the record exists, decodes, and holds
/// a current value.
pub open spec fn sv_schema_of(s: KvS, table: Seq<u8>) -> Result<SchemaV, Error> {
    match sv_fetch_schema(s, table) {
        Err(e) => Err(e),
        Ok(None) => Err(Error::TableNotFound),
        Ok(Some(snap)) => match spec_current(snap) {
            None => Err(Error::ConflictTableNotFound),
            Some(schema) => Ok(schema),
        },
    }
}

/// The key of the entry index `ix` implies for `row` stored under `row_key`.
pub open spec fn entry_key_of(
    table: Seq<u8>,
    ix: SchemaIndexV,
    row_key: Seq<u8>,
    row: Seq<Value>,
) -> Option<Seq<u8>> {
    match spec_eval(ix, row) {
        None => None,
        Some(v) => Some(spec_index_entry_key(table, ix.name, enc_index_value(v), row_key)),
    }
}

/// Writes the entry of one index for one row.
pub open spec fn sv_entry_insert(
    s: KvS,
    table: Seq<u8>,
    ix: SchemaIndexV,
    row_key: Seq<u8>,
    row: Seq<Value>,
) -> Result<KvS, Error> {
    match entry_key_of(table, ix, row_key, row) {
        None => Err(Error::Evaluate),
        Some(k) => Ok(kv_put(s, k, Seq::empty())),
    }
}

/// Removes the entry of one index for one row.
pub open spec fn sv_entry_delete(
    s: KvS,
    table: Seq<u8>,
    ix: SchemaIndexV,
    row_key: Seq<u8>,
    row: Seq<Value>,
) -> Result<KvS, Error> {
    match entry_key_of(table, ix, row_key, row) {
        None => Err(Error::Evaluate),
        Some(k) => Ok(kv_del(s, k)),
    }
}

/// Writes the entries of every index in `ixs` for one row.
pub open spec fn sv_index_insert(
    s: KvS,
    table: Seq<u8>,
    ixs: Seq<SchemaIndexV>,
    row_key: Seq<u8>,
    row: Seq<Value>,
) -> Result<KvS, Error>
    decreases ixs.len(),
{
    if ixs.len() == 0 {
        Ok(s)
    } else {
        match sv_entry_insert(s, table, ixs[0], row_key, row) {
            Err(e) => Err(e),
            Ok(s2) => sv_index_insert(s2, table, ixs.skip(1), row_key, row),
        }
    }
}

/// Removes the entries of every index in `ixs` for one row.
pub open spec fn sv_index_delete(
    s: KvS,
    table: Seq<u8>,
    ixs: Seq<SchemaIndexV>,
    row_key: Seq<u8>,
    row: Seq<Value>,
) -> Result<KvS, Error>
    decreases ixs.len(),
{
    if ixs.len() == 0 {
        Ok(s)
    } else {
        match sv_entry_delete(s, table, ixs[0], row_key, row) {
            Err(e) => Err(e),
            Ok(s2) => sv_index_delete(s2, table, ixs.skip(1), row_key, row),
        }
    }
}

/// For one row that changed from `old_row` to `new_row`: an index whose value
/// is unchanged keeps its entry; otherwise the old entry goes, the new comes.
pub open spec fn sv_index_update(
    s: KvS,
    table: Seq<u8>,
    ixs: Seq<SchemaIndexV>,
    row_key: Seq<u8>,
    old_row: Seq<Value>,
    new_row: Seq<Value>,
) -> Result<KvS, Error>
    decreases ixs.len(),
{
    if ixs.len() == 0 {
        Ok(s)
    } else {
        let step = if spec_eval(ixs[0], old_row) == spec_eval(ixs[0], new_row) {
            Ok(s)
        } else {
            match sv_entry_delete(s, table, ixs[0], row_key, old_row) {
                Err(e) => Err(e),
                Ok(s2) => sv_entry_insert(s2, table, ixs[0], row_key, new_row),
            }
        };
        match step {
            Err(e) => Err(e),
            Ok(s2) => sv_index_update(s2, table, ixs.skip(1), row_key, old_row, new_row),
        }
    }
}

/// `insert_schema`: one single-key write of an initial snapshot record.
pub open spec fn sv_insert_schema(s: KvS, schema: SchemaV) -> KvS {
    kv_put(
        s,
        spec_schema_key(schema.table_name),
        enc_snapshot(SnapshotV::Committed(schema)),
    )
}

/// `delete_schema`: every row of the table goes, then the schema record.
/// Index entries are not touched at this layer.
pub open spec fn sv_delete_schema(s: KvS, table: Seq<u8>) -> KvS {
    kv_del(remove_prefix(s, spec_data_prefix(table)), spec_schema_key(table))
}

/// `insert_data`, one row at a time: index entries first, then the row under
/// a fresh strictly increasing identifier.
pub open spec fn sv_insert_rows(
    s: KvS,
    table: Seq<u8>,
    schema: SchemaV,
    rows: Seq<Seq<Value>>,
    id: u64,
) -> Result<KvS, Error>
    decreases rows.len(),
{
    if rows.len() == 0 {
        Ok(s)
    } else {
        let row_key = spec_data_key(table, id);
        match sv_index_insert(s, table, schema.indexes, row_key, rows[0]) {
            Err(e) => Err(e),
            Ok(s2) => {
                let s3 = kv_put(s2, row_key, enc_row(rows[0]));
                if id == u64::MAX {
                    Err(Error::Evaluate)
                } else {
                    sv_insert_rows(s3, table, schema, rows.skip(1), (id + 1) as u64)
                }
            },
        }
    }
}

pub open spec fn sv_insert_data(s: KvS, table: Seq<u8>, rows: Seq<Seq<Value>>, id: u64) -> Result<
    KvS,
    Error,
> {
    match sv_schema_of(s, table) {
        Err(e) => Err(e),
        Ok(schema) => sv_insert_rows(s, table, schema, rows, id),
    }
}

/// `update_data`, one pair at a time: swap the new row in, decode the prior
/// value, and repair the index entries. A missing prior value means a
/// concurrent delete.
pub open spec fn sv_update_rows(
    s: KvS,
    table: Seq<u8>,
    schema: SchemaV,
    rows: Seq<(Seq<u8>, Seq<Value>)>,
) -> Result<KvS, Error>
    decreases rows.len(),
{
    if rows.len() == 0 {
        Ok(s)
    } else {
        let (row_key, new_row) = rows[0];
        match kv_get(s, row_key) {
            None => Err(Error::ConflictOnEmptyIndexValueUpdate),
            Some(old_bytes) => {
                let s2 = kv_put(s, row_key, enc_row(new_row));
                match dec_row(old_bytes) {
                    None => Err(Error::Deserialize),
                    Some(old_row) => match sv_index_update(
                        s2,
                        table,
                        schema.indexes,
                        row_key,
                        old_row,
                        new_row,
                    ) {
                        Err(e) => Err(e),
                        Ok(s3) => sv_update_rows(s3, table, schema, rows.skip(1)),
                    },
                }
            },
        }
    }
}

pub open spec fn sv_update_data(s: KvS, table: Seq<u8>, rows: Seq<(Seq<u8>, Seq<Value>)>) -> Result<
    KvS,
    Error,
> {
    match sv_schema_of(s, table) {
        Err(e) => Err(e),
        Ok(schema) => sv_update_rows(s, table, schema, rows),
    }
}

/// `delete_data`, one key at a time: remove the row, decode what was there,
/// and remove its index entries. A missing row means a concurrent delete.
pub open spec fn sv_delete_rows(
    s: KvS,
    table: Seq<u8>,
    schema: SchemaV,
    row_keys: Seq<Seq<u8>>,
) -> Result<KvS, Error>
    decreases row_keys.len(),
{
    if row_keys.len() == 0 {
        Ok(s)
    } else {
        let row_key = row_keys[0];
        match kv_get(s, row_key) {
            None => Err(Error::ConflictOnEmptyIndexValueDelete),
            Some(old_bytes) => {
                let s2 = kv_del(s, row_key);
                match dec_row(old_bytes) {
                    None => Err(Error::Deserialize),
                    Some(row) => match sv_index_delete(
                        s2,
                        table,
                        schema.indexes,
                        row_key,
                        row,
                    ) {
                        Err(e) => Err(e),
                        Ok(s3) => sv_delete_rows(s3, table, schema, row_keys.skip(1)),
                    },
                }
            },
        }
    }
}

pub open spec fn sv_delete_data(s: KvS, table: Seq<u8>, row_keys: Seq<Seq<u8>>) -> Result<
    KvS,
    Error,
> {
    match sv_schema_of(s, table) {
        Err(e) => Err(e),
        Ok(schema) => sv_delete_rows(s, table, schema, row_keys),
    }
}

/// Whether an index named `name` is declared.
pub open spec fn has_index_named(ixs: Seq<SchemaIndexV>, name: Seq<u8>) -> bool {
    exists|i: int| 0 <= i < ixs.len() && (#[trigger] ixs[i]).name == name
}

/// The first declared index carrying `name`.
pub open spec fn first_index_named(ixs: Seq<SchemaIndexV>, name: Seq<u8>) -> SchemaIndexV
    recommends
        has_index_named(ixs, name),
    decreases ixs.len(),
{
    if ixs.len() == 0 {
        SchemaIndexV { name: name, column: 0, order: SchemaIndexOrd::Both }
    } else if ixs[0].name == name {
        ixs[0]
    } else {
        first_index_named(ixs.skip(1), name)
    }
}

/// The position `i` holds the first index carrying `name`.
pub proof fn lemma_first_index_named(ixs: Seq<SchemaIndexV>, name: Seq<u8>, i: int)
    requires
        0 <= i < ixs.len(),
        ixs[i].name == name,
        forall|j: int| 0 <= j < i ==> (#[trigger] ixs[j]).name != name,
    ensures
        first_index_named(ixs, name) == ixs[i],
    decreases i,
{
    if i > 0 {
        let tail = ixs.skip(1);
        assert(forall|j: int| 0 <= j < i - 1 ==> (#[trigger] tail[j]).name != name);
        assert(tail[i - 1] == ixs[i]);
        lemma_first_index_named(tail, name, i - 1);
    }
}

/// The declared indexes that do not carry `name`, in order.
pub open spec fn drop_index_named(ixs: Seq<SchemaIndexV>, name: Seq<u8>) -> Seq<SchemaIndexV>
    decreases ixs.len(),
{
    if ixs.len() == 0 {
        Seq::empty()
    } else {
        let rest = drop_index_named(ixs.drop_last(), name);
        if ixs.last().name == name {
            rest
        } else {
            rest.push(ixs.last())
        }
    }
}

/// Writes the entry of one specific index for every scanned row.
pub open spec fn sv_entries_insert_all(
    s: KvS,
    table: Seq<u8>,
    ix: SchemaIndexV,
    rows: Seq<(Seq<u8>, Seq<u8>)>,
) -> Result<KvS, Error>
    decreases rows.len(),
{
    if rows.len() == 0 {
        Ok(s)
    } else {
        match dec_row(rows[0].1) {
            None => Err(Error::Deserialize),
            Some(row) => match sv_entry_insert(s, table, ix, rows[0].0, row) {
                Err(e) => Err(e),
                Ok(s2) => sv_entries_insert_all(s2, table, ix, rows.skip(1)),
            },
        }
    }
}

/// Removes the entry of one specific index for every scanned row.
pub open spec fn sv_entries_delete_all(
    s: KvS,
    table: Seq<u8>,
    ix: SchemaIndexV,
    rows: Seq<(Seq<u8>, Seq<u8>)>,
) -> Result<KvS, Error>
    decreases rows.len(),
{
    if rows.len() == 0 {
        Ok(s)
    } else {
        match dec_row(rows[0].1) {
            None => Err(Error::Deserialize),
            Some(row) => match sv_entry_delete(s, table, ix, rows[0].0, row) {
                Err(e) => Err(e),
                Ok(s2) => sv_entries_delete_all(s2, table, ix, rows.skip(1)),
            },
        }
    }
}

/// The write phase both structural operations share once the new schema and
/// the per-row work are done: the snapshot record, the temp marker, and the
/// lock released.
pub open spec fn sv_structural_commit(
    s: KvS,
    table: Seq<u8>,
    snap: SnapshotV,
    txid: u64,
    new_schema: SchemaV,
) -> KvS {
    let s2 = kv_put(
        s,
        spec_schema_key(table),
        enc_snapshot(spec_update(snap, txid, new_schema)),
    );
    let s3 = kv_put(s2, spec_temp_key(txid, table), spec_schema_key(table));
    kv_put(s3, spec_lock_key(), lock_record(txid, false))
}

/// `create_index`: scan the rows, take the lock, tombstone the schema, refuse
/// a duplicate name, append the index, write one entry per row, commit.
pub open spec fn sv_create_index(
    s: KvS,
    table: Seq<u8>,
    name: Seq<u8>,
    column: u64,
    txid: u64,
) -> Result<KvS, Error> {
    let rows = crate::kv::filter_prefix(s, spec_data_prefix(table));
    if lock_live(s) {
        Err(Error::LockConflict)
    } else {
        let s1 = kv_put(s, spec_lock_key(), lock_record(txid, true));
        match sv_fetch_schema(s1, table) {
            Err(e) => Err(e),
            Ok(None) => Err(Error::TableNotFound),
            Ok(Some(snap)) => {
                let (snap2, cur) = spec_delete(snap, txid);
                match cur {
                    None => Err(Error::ConflictTableNotFound),
                    Some(schema) => if has_index_named(schema.indexes, name) {
                        Err(Error::IndexNameAlreadyExists)
                    } else {
                        let new_ix = SchemaIndexV {
                            name: name,
                            column: column,
                            order: SchemaIndexOrd::Both,
                        };
                        let new_schema = SchemaV {
                            table_name: table,
                            column_defs: schema.column_defs,
                            indexes: schema.indexes.push(new_ix),
                        };
                        match sv_entries_insert_all(s1, table, new_ix, rows) {
                            Err(e) => Err(e),
                            Ok(s2) => Ok(
                                sv_structural_commit(s2, table, snap2, txid, new_schema),
                            ),
                        }
                    },
                }
            },
        }
    }
}

/// `drop_index`: symmetric to `create_index`; the named index leaves the
/// schema and every entry it computed for the scanned rows is removed.
pub open spec fn sv_drop_index(s: KvS, table: Seq<u8>, name: Seq<u8>, txid: u64) -> Result<
    KvS,
    Error,
> {
    let rows = crate::kv::filter_prefix(s, spec_data_prefix(table));
    if lock_live(s) {
        Err(Error::LockConflict)
    } else {
        let s1 = kv_put(s, spec_lock_key(), lock_record(txid, true));
        match sv_fetch_schema(s1, table) {
            Err(e) => Err(e),
            Ok(None) => Err(Error::TableNotFound),
            Ok(Some(snap)) => {
                let (snap2, cur) = spec_delete(snap, txid);
                match cur {
                    None => Err(Error::ConflictTableNotFound),
                    Some(schema) => if !has_index_named(schema.indexes, name) {
                        Err(Error::IndexNameDoesNotExist)
                    } else {
                        let removed = first_index_named(schema.indexes, name);
                        let new_schema = SchemaV {
                            table_name: table,
                            column_defs: schema.column_defs,
                            indexes: drop_index_named(schema.indexes, name),
                        };
                        match sv_entries_delete_all(s1, table, removed, rows) {
                            Err(e) => Err(e),
                            Ok(s2) => Ok(
                                sv_structural_commit(s2, table, snap2, txid, new_schema),
                            ),
                        }
                    },
                }
            },
        }
    }
}

/// A key found after `remove_prefix` was in the store before.
pub proof fn lemma_remove_prefix_sub(s: KvS, p: Seq<u8>, k: Seq<u8>)
    requires
        kv_contains(remove_prefix(s, p), k),
    ensures
        kv_contains(s, k),
    decreases s.len(),
{
    if s.len() > 0 {
        let rest = remove_prefix(s.drop_last(), p);
        let r = remove_prefix(s, p);
        if crate::bytes::is_prefix(p, s.last().0) {
            lemma_remove_prefix_sub(s.drop_last(), p, k);
            let i = choose|i: int| 0 <= i < s.drop_last().len() && (#[trigger] s.drop_last()[i]).0
                == k;
            assert(s[i].0 == k);
        } else {
            let i = choose|i: int| 0 <= i < r.len() && (#[trigger] r[i]).0 == k;
            if i == r.len() - 1 {
                assert(s[s.len() - 1].0 == k);
            } else {
                assert(rest[i].0 == k);
                lemma_remove_prefix_sub(s.drop_last(), p, k);
                let j = choose|j: int|
                    0 <= j < s.drop_last().len() && (#[trigger] s.drop_last()[j]).0 == k;
                assert(s[j].0 == k);
            }
        }
    }
}

/// `remove_prefix` keeps keys unique.
pub proof fn lemma_remove_prefix_unique(s: KvS, p: Seq<u8>)
    requires
        crate::kv::kv_unique(s),
    ensures
        crate::kv::kv_unique(remove_prefix(s, p)),
    decreases s.len(),
{
    if s.len() > 0 {
        let d = s.drop_last();
        assert(crate::kv::kv_unique(d)) by {
            assert(forall|i: int| 0 <= i < d.len() ==> d[i] == s[i]);
        }
        lemma_remove_prefix_unique(d, p);
        let rest = remove_prefix(d, p);
        if !crate::bytes::is_prefix(p, s.last().0) {
            let r = remove_prefix(s, p);
            assert(r == rest.push(s.last()));
            assert(!kv_contains(rest, s.last().0)) by {
                if kv_contains(rest, s.last().0) {
                    lemma_remove_prefix_sub(d, p, s.last().0);
                    let j = choose|j: int| 0 <= j < d.len() && (#[trigger] d[j]).0 == s.last().0;
                    assert(s[j].0 == s[s.len() - 1].0);
                }
            }
            assert forall|a: int, b: int| 0 <= a < b < r.len() implies (#[trigger] r[a]).0 != (
            #[trigger] r[b]).0 by {
                if b == r.len() - 1 {
                    assert(r[a] == rest[a]);
                    assert(kv_contains(rest, rest[a].0));
                } else {
                    assert(r[a] == rest[a] && r[b] == rest[b]);
                }
            }
        }
    }
}

/// No key extending `p` survives `remove_prefix`.
pub proof fn lemma_remove_prefix_gone(s: KvS, p: Seq<u8>, k: Seq<u8>)
    requires
        crate::bytes::is_prefix(p, k),
    ensures
        !kv_contains(remove_prefix(s, p), k),
    decreases s.len(),
{
    if s.len() > 0 {
        let d = s.drop_last();
        lemma_remove_prefix_gone(d, p, k);
        let rest = remove_prefix(d, p);
        let r = remove_prefix(s, p);
        if !crate::bytes::is_prefix(p, s.last().0) {
            if kv_contains(r, k) {
                let i = choose|i: int| 0 <= i < r.len() && (#[trigger] r[i]).0 == k;
                if i < r.len() - 1 {
                    assert(rest[i].0 == k);
                }
            }
        }
    }
}

/// Storing the value a key already holds changes nothing.
pub proof fn lemma_kv_put_same(s: KvS, k: Seq<u8>, v: Seq<u8>)
    requires
        crate::kv::kv_unique(s),
        kv_get(s, k) == Some(v),
    ensures
        kv_put(s, k, v) == s,
{
    let i = kv_index(s, k);
    assert(s[i].0 == k && s[i].1 == v);
    assert(kv_put(s, k, v) =~= s);
}

} // verus!
