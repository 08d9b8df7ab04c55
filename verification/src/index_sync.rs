//! Index maintenance for one row: given a schema, write, remove, or repair
//! the secondary-index entries the row implies. A pure view over a schema;
//! every operation is proven equal to the model's per-row function. On an
//! error the store may hold a partial write: the mutation engine rolls the
//! whole transaction back.

use vstd::prelude::*;

use crate::codec::encode_index_value;
use crate::data::{eval, Row, Schema, SchemaIndex, Value};
use crate::keys::index_entry_key;
use crate::kv::Kv;
use crate::model::{
    sv_entry_delete, sv_entry_insert, sv_index_delete, sv_index_insert, sv_index_update,
};
use crate::Error;

verus! {

/// Whether two evaluation results agree, as the model compares them.
fn eval_eq(a: &Option<Value>, b: &Option<Value>) -> (r: bool)
    ensures
        r <==> (*a == *b),
{
    match (a, b) {
        (Option::None, Option::None) => true,
        (Option::Some(x), Option::Some(y)) => *x == *y,
        _ => false,
    }
}

/// Writes the entry of `ix` for `row` stored under `row_key`.
pub fn entry_insert(
    kv: &mut Kv,
    table: &Vec<u8>,
    ix: &SchemaIndex,
    row_key: &Vec<u8>,
    row: &Row,
) -> (r: Result<(), Error>)
    requires
        old(kv).wf(),
    ensures
        final(kv).wf(),
        r matches Ok(()) ==> sv_entry_insert(old(kv)@, table@, ix@, row_key@, row@) == Ok::<
            _,
            Error,
        >(final(kv)@),
        r matches Err(e) ==> sv_entry_insert(old(kv)@, table@, ix@, row_key@, row@) == Err::<
            crate::model::KvS,
            _,
        >(e) && final(kv)@ == old(kv)@,
{
    match eval(ix, row) {
        None => Err(Error::Evaluate),
        Some(v) => {
            let enc = encode_index_value(&v);
            let k = index_entry_key(table, &ix.name, &enc, row_key);
            let empty: Vec<u8> = Vec::new();
            assert(empty@ =~= Seq::<u8>::empty());
            kv.insert(k, empty);
            Ok(())
        },
    }
}

/// Removes the entry of `ix` for `row` stored under `row_key`.
pub fn entry_delete(
    kv: &mut Kv,
    table: &Vec<u8>,
    ix: &SchemaIndex,
    row_key: &Vec<u8>,
    row: &Row,
) -> (r: Result<(), Error>)
    requires
        old(kv).wf(),
    ensures
        final(kv).wf(),
        r matches Ok(()) ==> sv_entry_delete(old(kv)@, table@, ix@, row_key@, row@) == Ok::<
            _,
            Error,
        >(final(kv)@),
        r matches Err(e) ==> sv_entry_delete(old(kv)@, table@, ix@, row_key@, row@) == Err::<
            crate::model::KvS,
            _,
        >(e) && final(kv)@ == old(kv)@,
{
    match eval(ix, row) {
        None => Err(Error::Evaluate),
        Some(v) => {
            let enc = encode_index_value(&v);
            let k = index_entry_key(table, &ix.name, &enc, row_key);
            kv.remove(&k);
            Ok(())
        },
    }
}

/// Writes the entries of every index declared in `schema` for one row.
pub fn index_insert(
    kv: &mut Kv,
    table: &Vec<u8>,
    schema: &Schema,
    row_key: &Vec<u8>,
    row: &Row,
) -> (r: Result<(), Error>)
    requires
        old(kv).wf(),
    ensures
        final(kv).wf(),
        r matches Ok(()) ==> sv_index_insert(old(kv)@, table@, schema@.indexes, row_key@, row@)
            == Ok::<_, Error>(final(kv)@),
        r matches Err(e) ==> sv_index_insert(old(kv)@, table@, schema@.indexes, row_key@, row@)
            == Err::<crate::model::KvS, _>(e),
{
    let ghost ixs = schema@.indexes;
    let ghost kv0 = old(kv)@;
    let mut i: usize = 0;
    assert(ixs.skip(0) =~= ixs);
    while i < schema.indexes.len()
        invariant
            i <= ixs.len(),
            ixs.len() == schema.indexes@.len(),
            ixs == schema@.indexes,
            kv0 == old(kv)@,
            kv.wf(),
            sv_index_insert(kv0, table@, ixs, row_key@, row@) == sv_index_insert(
                kv@,
                table@,
                ixs.skip(i as int),
                row_key@,
                row@,
            ),
        decreases ixs.len() - i,
    {
        proof {
            assert(ixs.skip(i as int)[0] == ixs[i as int]);
            assert(ixs.skip(i as int).skip(1) =~= ixs.skip(i + 1 as int));
        }
        let ghost pre = kv@;
        match entry_insert(kv, table, &schema.indexes[i], row_key, row) {
            Err(e) => {
                proof {
                    assert(sv_entry_insert(pre, table@, ixs[i as int], row_key@, row@)
                        == Err::<crate::model::KvS, Error>(e));
                    assert(sv_index_insert(pre, table@, ixs.skip(i as int), row_key@, row@)
                        == Err::<crate::model::KvS, Error>(e));
                }
                return Err(e);
            },
            Ok(()) => {
                proof {
                    assert(sv_index_insert(pre, table@, ixs.skip(i as int), row_key@, row@)
                        == sv_index_insert(kv@, table@, ixs.skip(i + 1 as int), row_key@, row@));
                }
            },
        }
        i = i + 1;
    }
    assert(ixs.skip(ixs.len() as int) =~= Seq::<crate::data::SchemaIndexV>::empty());
    Ok(())
}

/// Removes the entries of every index declared in `schema` for one row.
pub fn index_delete(
    kv: &mut Kv,
    table: &Vec<u8>,
    schema: &Schema,
    row_key: &Vec<u8>,
    row: &Row,
) -> (r: Result<(), Error>)
    requires
        old(kv).wf(),
    ensures
        final(kv).wf(),
        r matches Ok(()) ==> sv_index_delete(old(kv)@, table@, schema@.indexes, row_key@, row@)
            == Ok::<_, Error>(final(kv)@),
        r matches Err(e) ==> sv_index_delete(old(kv)@, table@, schema@.indexes, row_key@, row@)
            == Err::<crate::model::KvS, _>(e),
{
    let ghost ixs = schema@.indexes;
    let ghost kv0 = old(kv)@;
    let mut i: usize = 0;
    assert(ixs.skip(0) =~= ixs);
    while i < schema.indexes.len()
        invariant
            i <= ixs.len(),
            ixs.len() == schema.indexes@.len(),
            ixs == schema@.indexes,
            kv0 == old(kv)@,
            kv.wf(),
            sv_index_delete(kv0, table@, ixs, row_key@, row@) == sv_index_delete(
                kv@,
                table@,
                ixs.skip(i as int),
                row_key@,
                row@,
            ),
        decreases ixs.len() - i,
    {
        proof {
            assert(ixs.skip(i as int)[0] == ixs[i as int]);
            assert(ixs.skip(i as int).skip(1) =~= ixs.skip(i + 1 as int));
        }
        let ghost pre = kv@;
        match entry_delete(kv, table, &schema.indexes[i], row_key, row) {
            Err(e) => {
                proof {
                    assert(sv_entry_delete(pre, table@, ixs[i as int], row_key@, row@)
                        == Err::<crate::model::KvS, Error>(e));
                    assert(sv_index_delete(pre, table@, ixs.skip(i as int), row_key@, row@)
                        == Err::<crate::model::KvS, Error>(e));
                }
                return Err(e);
            },
            Ok(()) => {
                proof {
                    assert(sv_index_delete(pre, table@, ixs.skip(i as int), row_key@, row@)
                        == sv_index_delete(kv@, table@, ixs.skip(i + 1 as int), row_key@, row@));
                }
            },
        }
        i = i + 1;
    }
    assert(ixs.skip(ixs.len() as int) =~= Seq::<crate::data::SchemaIndexV>::empty());
    Ok(())
}

/// Repairs the entries of every index declared in `schema` after a row
/// changed in place: an index whose value is unchanged is left alone.
pub fn index_update(
    kv: &mut Kv,
    table: &Vec<u8>,
    schema: &Schema,
    row_key: &Vec<u8>,
    old_row: &Row,
    new_row: &Row,
) -> (r: Result<(), Error>)
    requires
        old(kv).wf(),
    ensures
        final(kv).wf(),
        r matches Ok(()) ==> sv_index_update(
            old(kv)@,
            table@,
            schema@.indexes,
            row_key@,
            old_row@,
            new_row@,
        ) == Ok::<_, Error>(final(kv)@),
        r matches Err(e) ==> sv_index_update(
            old(kv)@,
            table@,
            schema@.indexes,
            row_key@,
            old_row@,
            new_row@,
        ) == Err::<crate::model::KvS, _>(e),
{
    let ghost ixs = schema@.indexes;
    let ghost kv0 = old(kv)@;
    let mut i: usize = 0;
    assert(ixs.skip(0) =~= ixs);
    while i < schema.indexes.len()
        invariant
            i <= ixs.len(),
            ixs.len() == schema.indexes@.len(),
            ixs == schema@.indexes,
            kv0 == old(kv)@,
            kv.wf(),
            sv_index_update(kv0, table@, ixs, row_key@, old_row@, new_row@) == sv_index_update(
                kv@,
                table@,
                ixs.skip(i as int),
                row_key@,
                old_row@,
                new_row@,
            ),
        decreases ixs.len() - i,
    {
        proof {
            assert(ixs.skip(i as int)[0] == ixs[i as int]);
            assert(ixs.skip(i as int).skip(1) =~= ixs.skip(i + 1 as int));
        }
        let ix = &schema.indexes[i];
        let ghost pre = kv@;
        let ov = eval(ix, old_row);
        let nv = eval(ix, new_row);
        if !eval_eq(&ov, &nv) {
            match entry_delete(kv, table, ix, row_key, old_row) {
                Err(e) => {
                    proof {
                        assert(sv_index_update(
                            pre,
                            table@,
                            ixs.skip(i as int),
                            row_key@,
                            old_row@,
                            new_row@,
                        ) == Err::<crate::model::KvS, Error>(e));
                    }
                    return Err(e);
                },
                Ok(()) => {},
            }
            let ghost mid = kv@;
            match entry_insert(kv, table, ix, row_key, new_row) {
                Err(e) => {
                    proof {
                        assert(sv_entry_delete(pre, table@, ixs[i as int], row_key@, old_row@)
                            == Ok::<crate::model::KvS, Error>(mid));
                        assert(sv_entry_insert(mid, table@, ixs[i as int], row_key@, new_row@)
                            == Err::<crate::model::KvS, Error>(e));
                        assert(sv_index_update(
                            pre,
                            table@,
                            ixs.skip(i as int),
                            row_key@,
                            old_row@,
                            new_row@,
                        ) == Err::<crate::model::KvS, Error>(e));
                    }
                    return Err(e);
                },
                Ok(()) => {},
            }
        }
        proof {
            assert(sv_index_update(pre, table@, ixs.skip(i as int), row_key@, old_row@, new_row@)
                == sv_index_update(kv@, table@, ixs.skip(i + 1 as int), row_key@, old_row@, new_row@));
        }
        i = i + 1;
    }
    assert(ixs.skip(ixs.len() as int) =~= Seq::<crate::data::SchemaIndexV>::empty());
    Ok(())
}

} // verus!
