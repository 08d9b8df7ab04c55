//! Laws of the adapter, proved over the model that every public operation is
//! pinned to.

use vstd::prelude::*;

use crate::codec::{enc_row, lemma_dec_row_enc};
use crate::data::{SchemaIndexV, SchemaV, Value, spec_eval};
use crate::keys::{spec_data_prefix, spec_schema_key};
use crate::kv::{kv_contains, kv_get, kv_index, kv_unique, lemma_kv_get_at};
use crate::model::{
    kv_del, kv_put, lemma_kv_put_same, lemma_remove_prefix_gone, lemma_remove_prefix_unique,
    lock_live, remove_prefix, sv_create_index, sv_delete_schema,
    sv_drop_index, sv_index_update, sv_insert_schema, sv_schema_of, sv_update_data,
    sv_update_rows, KvS,
};
use crate::Error;

verus! {

/// `kv_put` keeps keys unique, stores the value, and touches no other key.
pub proof fn lemma_kv_put(s: KvS, k: Seq<u8>, v: Seq<u8>)
    requires
        kv_unique(s),
    ensures
        kv_unique(kv_put(s, k, v)),
        kv_get(kv_put(s, k, v), k) == Some(v),
        forall|k2: Seq<u8>| k2 != k ==> kv_get(kv_put(s, k, v), k2) == kv_get(s, k2),
{
    let post = kv_put(s, k, v);
    if kv_contains(s, k) {
        let i = kv_index(s, k);
        assert(s[i].0 == k);
        assert(kv_unique(post)) by {
            assert(forall|j: int| 0 <= j < post.len() && j != i ==> post[j] == s[j]);
        }
        lemma_kv_get_at(post, i);
        assert forall|k2: Seq<u8>| k2 != k implies kv_get(post, k2) == kv_get(s, k2) by {
            if kv_contains(s, k2) {
                let j = kv_index(s, k2);
                lemma_kv_get_at(s, j);
                assert(j != i);
                assert(post[j] == s[j]);
                lemma_kv_get_at(post, j);
            } else {
                if kv_contains(post, k2) {
                    let j = kv_index(post, k2);
                    assert(post[j].0 == k2);
                    assert(j != i);
                    assert(s[j].0 == k2);
                }
            }
        }
    } else {
        assert(kv_unique(post)) by {
            assert forall|a: int, b: int| 0 <= a < b < post.len() implies (#[trigger] post[a]).0
                != (#[trigger] post[b]).0 by {
                if b == post.len() - 1 {
                    assert(post[a] == s[a]);
                    assert(s[a].0 != k);
                }
            }
        }
        lemma_kv_get_at(post, post.len() - 1);
        assert forall|k2: Seq<u8>| k2 != k implies kv_get(post, k2) == kv_get(s, k2) by {
            if kv_contains(s, k2) {
                let j = kv_index(s, k2);
                lemma_kv_get_at(s, j);
                assert(post[j] == s[j]);
                lemma_kv_get_at(post, j);
            } else {
                if kv_contains(post, k2) {
                    let j = kv_index(post, k2);
                    assert(post[j].0 == k2);
                    assert(j < s.len());
                }
            }
        }
    }
}

/// `kv_del` keeps keys unique, removes the key, and touches no other key.
pub proof fn lemma_kv_del(s: KvS, k: Seq<u8>)
    requires
        kv_unique(s),
    ensures
        kv_unique(kv_del(s, k)),
        !kv_contains(kv_del(s, k), k),
        forall|k2: Seq<u8>| k2 != k ==> kv_get(kv_del(s, k), k2) == kv_get(s, k2),
{
    let post = kv_del(s, k);
    if kv_contains(s, k) {
        let i = kv_index(s, k);
        assert(s[i].0 == k);
        assert(kv_unique(post)) by {
            assert forall|a: int, b: int| 0 <= a < b < post.len() implies (#[trigger] post[a]).0
                != (#[trigger] post[b]).0 by {
                let a0 = if a < i { a } else { a + 1 };
                let b0 = if b < i { b } else { b + 1 };
                assert(post[a] == s[a0] && post[b] == s[b0]);
            }
        }
        assert(!kv_contains(post, k)) by {
            if kv_contains(post, k) {
                let j = kv_index(post, k);
                let j0 = if j < i { j } else { j + 1 };
                assert(s[j0].0 == k);
                assert(j0 != i ==> s[j0].0 != s[i].0);
            }
        }
        assert forall|k2: Seq<u8>| k2 != k implies kv_get(post, k2) == kv_get(s, k2) by {
            if kv_contains(s, k2) {
                let j = kv_index(s, k2);
                lemma_kv_get_at(s, j);
                assert(j != i);
                let j2 = if j < i { j } else { j - 1 };
                assert(post[j2] == s[j]);
                lemma_kv_get_at(post, j2);
            } else {
                if kv_contains(post, k2) {
                    let j = kv_index(post, k2);
                    let j0 = if j < i { j } else { j + 1 };
                    assert(s[j0].0 == k2);
                }
            }
        }
    }
}

/// After `delete_schema`, no row of the table and no schema record for it is
/// left in the keyspace, whatever was there before.
pub proof fn lemma_delete_schema_clean(s: KvS, table: Seq<u8>)
    requires
        kv_unique(s),
    ensures
        !kv_contains(sv_delete_schema(s, table), spec_schema_key(table)),
        forall|k: Seq<u8>|
            crate::bytes::is_prefix(spec_data_prefix(table), k) ==> !kv_contains(
                sv_delete_schema(s, table),
                k,
            ),
{
    let swept = remove_prefix(s, spec_data_prefix(table));
    lemma_remove_prefix_unique(s, spec_data_prefix(table));
    lemma_kv_del(swept, spec_schema_key(table));
    let post = sv_delete_schema(s, table);
    assert forall|k: Seq<u8>|
        crate::bytes::is_prefix(spec_data_prefix(table), k) implies !kv_contains(post, k) by {
        lemma_remove_prefix_gone(s, spec_data_prefix(table), k);
        if kv_contains(post, k) {
            if k == spec_schema_key(table) {
            } else {
                assert(kv_get(post, k) == kv_get(swept, k));
            }
        }
    }
}

/// Writing a schema and then deleting it leaves no `schema` record and no row
/// of the table behind.
pub proof fn lemma_insert_then_delete_schema(s: KvS, schema: SchemaV)
    requires
        kv_unique(s),
    ensures
        !kv_contains(
            sv_delete_schema(sv_insert_schema(s, schema), schema.table_name),
            spec_schema_key(schema.table_name),
        ),
        forall|k: Seq<u8>|
            crate::bytes::is_prefix(spec_data_prefix(schema.table_name), k) ==> !kv_contains(
                sv_delete_schema(sv_insert_schema(s, schema), schema.table_name),
                k,
            ),
{
    lemma_kv_put(
        s,
        spec_schema_key(schema.table_name),
        crate::codec::enc_snapshot(crate::snapshot::SnapshotV::Committed(schema)),
    );
    lemma_delete_schema_clean(sv_insert_schema(s, schema), schema.table_name);
}

/// Repairing indexes for a row that did not change repairs nothing.
pub proof fn lemma_index_update_noop(
    s: KvS,
    table: Seq<u8>,
    ixs: Seq<SchemaIndexV>,
    row_key: Seq<u8>,
    row: Seq<Value>,
)
    ensures
        sv_index_update(s, table, ixs, row_key, row, row) == Ok::<KvS, Error>(s),
    decreases ixs.len(),
{
    if ixs.len() > 0 {
        assert(spec_eval(ixs[0], row) == spec_eval(ixs[0], row));
        lemma_index_update_noop(s, table, ixs.skip(1), row_key, row);
    }
}

/// Updating a row to the very value it already holds leaves the keyspace
/// byte-identical: the same state, not merely an equivalent one.
pub proof fn lemma_update_same_row_noop(s: KvS, table: Seq<u8>, row_key: Seq<u8>, row: Seq<Value>)
    requires
        kv_unique(s),
        kv_get(s, row_key) == Some(enc_row(row)),
        row.len() <= u64::MAX,
        sv_schema_of(s, table) is Ok,
    ensures
        sv_update_data(s, table, seq![(row_key, row)]) == Ok::<KvS, Error>(s),
{
    let schema = sv_schema_of(s, table)->Ok_0;
    let rows: Seq<(Seq<u8>, Seq<Value>)> = seq![(row_key, row)];
    assert(rows[0] == (row_key, row));
    lemma_kv_put_same(s, row_key, enc_row(row));
    lemma_dec_row_enc(row);
    lemma_index_update_noop(s, table, schema.indexes, row_key, row);
    assert(rows.skip(1) =~= Seq::<(Seq<u8>, Seq<Value>)>::empty());
    assert(sv_update_rows(s, table, schema, rows.skip(1)) == Ok::<KvS, Error>(s));
    assert(sv_update_rows(s, table, schema, rows) == Ok::<KvS, Error>(s));
}

/// `kv_put` never removes a key.
pub proof fn lemma_kv_put_monotonic(s: KvS, k: Seq<u8>, v: Seq<u8>, k2: Seq<u8>)
    requires
        kv_contains(s, k2),
    ensures
        kv_contains(kv_put(s, k, v), k2),
{
    let post = kv_put(s, k, v);
    let j = choose|j: int| 0 <= j < s.len() && (#[trigger] s[j]).0 == k2;
    if kv_contains(s, k) {
        let i = kv_index(s, k);
        if j == i {
            assert(post[i].0 == k && k2 == k);
        } else {
            assert(post[j] == s[j]);
        }
    } else {
        assert(post[j] == s[j]);
    }
}

/// The index writes for one row never remove a key.
pub proof fn lemma_index_insert_monotonic(
    s: KvS,
    table: Seq<u8>,
    ixs: Seq<SchemaIndexV>,
    rk: Seq<u8>,
    row: Seq<Value>,
    s2: KvS,
    k2: Seq<u8>,
)
    requires
        crate::model::sv_index_insert(s, table, ixs, rk, row) == Ok::<KvS, Error>(s2),
        kv_contains(s, k2),
    ensures
        kv_contains(s2, k2),
    decreases ixs.len(),
{
    if ixs.len() == 0 {
    } else {
        let step = crate::model::sv_entry_insert(s, table, ixs[0], rk, row);
        let s1 = step->Ok_0;
        let ek = crate::model::entry_key_of(table, ixs[0], rk, row)->Some_0;
        lemma_kv_put_monotonic(s, ek, Seq::empty(), k2);
        lemma_index_insert_monotonic(s1, table, ixs.skip(1), rk, row, s2, k2);
    }
}

/// One half of the index invariant, at the point where rows enter: after the
/// index writes for one row succeed, every declared index has exactly the
/// entry key its expression implies for that row, present in the keyspace.
pub proof fn lemma_index_insert_entries_present(
    s: KvS,
    table: Seq<u8>,
    ixs: Seq<SchemaIndexV>,
    rk: Seq<u8>,
    row: Seq<Value>,
    s2: KvS,
)
    requires
        crate::model::sv_index_insert(s, table, ixs, rk, row) == Ok::<KvS, Error>(s2),
    ensures
        forall|i: int|
            0 <= i < ixs.len() ==> spec_eval(#[trigger] ixs[i], row) is Some && kv_contains(
                s2,
                crate::keys::spec_index_entry_key(
                    table,
                    ixs[i].name,
                    crate::codec::enc_index_value(spec_eval(ixs[i], row)->Some_0),
                    rk,
                ),
            ),
    decreases ixs.len(),
{
    if ixs.len() > 0 {
        let s1 = crate::model::sv_entry_insert(s, table, ixs[0], rk, row)->Ok_0;
        let ek = crate::model::entry_key_of(table, ixs[0], rk, row)->Some_0;
        assert(kv_contains(s1, ek)) by {
            if kv_contains(s, ek) {
                let i = kv_index(s, ek);
                assert(kv_put(s, ek, Seq::empty())[i].0 == ek);
            } else {
                let post = kv_put(s, ek, Seq::empty());
                assert(post[post.len() - 1].0 == ek);
            }
        }
        lemma_index_insert_monotonic(s1, table, ixs.skip(1), rk, row, s2, ek);
        lemma_index_insert_entries_present(s1, table, ixs.skip(1), rk, row, s2);
        assert forall|i: int|
            0 <= i < ixs.len() implies spec_eval(#[trigger] ixs[i], row) is Some && kv_contains(
            s2,
            crate::keys::spec_index_entry_key(
                table,
                ixs[i].name,
                crate::codec::enc_index_value(spec_eval(ixs[i], row)->Some_0),
                rk,
            ),
        ) by {
            if i > 0 {
                assert(ixs.skip(1)[i - 1] == ixs[i]);
            }
        }
    }
}

/// Structural operations serialize behind the lock: while a live writer holds
/// it, a competing `create_index` or `drop_index` observes a lock conflict
/// and changes nothing.
pub proof fn lemma_structural_lock_conflict(
    s: KvS,
    table: Seq<u8>,
    name: Seq<u8>,
    column: u64,
    txid: u64,
)
    requires
        lock_live(s),
    ensures
        sv_create_index(s, table, name, column, txid) == Err::<KvS, Error>(Error::LockConflict),
        sv_drop_index(s, table, name, txid) == Err::<KvS, Error>(Error::LockConflict),
{
}

/// The other way competing `create_index` calls serialize: once a schema
/// whose current value declares `name` is committed, a later `create_index`
/// with that name observes the duplicate and changes nothing, whatever
/// column it asks for and whatever transaction id it draws.
#[verifier::rlimit(100)]
#[verifier::spinoff_prover]
pub proof fn lemma_create_index_duplicate(
    s: KvS,
    table: Seq<u8>,
    name: Seq<u8>,
    snap: crate::snapshot::SnapshotV,
    schema: SchemaV,
    column: u64,
    txid: u64,
)
    requires
        kv_unique(s),
        !lock_live(s),
        crate::model::sv_fetch_schema(s, table) == Ok::<_, Error>(Some(snap)),
        crate::snapshot::spec_current(snap) == Some(schema),
        crate::model::has_index_named(schema.indexes, name),
    ensures
        sv_create_index(s, table, name, column, txid) == Err::<KvS, Error>(
            Error::IndexNameAlreadyExists,
        ),
{
    let lk = crate::keys::spec_lock_key();
    let sk = spec_schema_key(table);
    assert(sk[0] == 115 && lk[0] == 0);
    assert(sk != lk);
    lemma_kv_put(s, lk, crate::model::lock_record(txid, true));
    let s1 = kv_put(s, lk, crate::model::lock_record(txid, true));
    assert(kv_get(s1, sk) == kv_get(s, sk));
    assert(crate::model::sv_fetch_schema(s1, table) == Ok::<_, Error>(Some(snap)));
    assert(crate::snapshot::spec_delete(snap, txid).1 == Some(schema));
}

} // verus!
