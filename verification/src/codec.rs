//! The stable binary record format: rows and schema snapshots are persisted
//! through these functions and nothing else. Integers travel big-endian and
//! every variable-length field is length-prefixed, so decoding is
//! deterministic and decode-of-encode is exact.

use vstd::prelude::*;

use crate::bytes::{append, append_u64_be, u64_be, u64_from_be};
use crate::data::{
    ColumnDef, ColumnDefV, DataType, Row, Schema, SchemaIndex, SchemaIndexOrd, SchemaIndexV,
    SchemaV, Value,
};
use crate::snapshot::{Snapshot, SnapshotV};

verus! {

// ---------------------------------------------------------------------------
// sequence splitting helpers
// ---------------------------------------------------------------------------

pub proof fn lemma_split(a: Seq<u8>, b: Seq<u8>)
    ensures
        (a + b).subrange(0, a.len() as int) == a,
        (a + b).skip(a.len() as int) == b,
        (a + b).len() == a.len() + b.len(),
{
    assert((a + b).subrange(0, a.len() as int) =~= a);
    assert((a + b).skip(a.len() as int) =~= b);
}

pub proof fn lemma_assoc(a: Seq<u8>, b: Seq<u8>, c: Seq<u8>)
    ensures
        (a + b) + c == a + (b + c),
{
    assert((a + b) + c =~= a + (b + c));
}

// ---------------------------------------------------------------------------
// spec encoders
// ---------------------------------------------------------------------------

/// A length-prefixed byte string.
pub open spec fn enc_bytes(b: Seq<u8>) -> Seq<u8> {
    u64_be(b.len() as u64) + b
}

pub open spec fn enc_value(v: Value) -> Seq<u8> {
    match v {
        Value::I64(x) => seq![1u8] + u64_be(x as u64),
        Value::Bool(b) => seq![2u8, if b { 1u8 } else { 0u8 }],
        Value::Null => seq![3u8],
    }
}

pub open spec fn enc_values(vs: Seq<Value>) -> Seq<u8>
    decreases vs.len(),
{
    if vs.len() == 0 {
        Seq::empty()
    } else {
        enc_value(vs[0]) + enc_values(vs.subrange(1, vs.len() as int))
    }
}

/// A row: its column count, then each value in order.
pub open spec fn enc_row(vs: Seq<Value>) -> Seq<u8> {
    u64_be(vs.len() as u64) + enc_values(vs)
}

pub open spec fn data_type_tag(t: DataType) -> u8 {
    match t {
        DataType::Int => 1,
        DataType::Bool => 2,
    }
}

pub open spec fn ord_tag(o: SchemaIndexOrd) -> u8 {
    match o {
        SchemaIndexOrd::Asc => 1,
        SchemaIndexOrd::Desc => 2,
        SchemaIndexOrd::Both => 3,
    }
}

pub open spec fn enc_column(c: ColumnDefV) -> Seq<u8> {
    enc_bytes(c.name) + seq![data_type_tag(c.data_type)]
}

pub open spec fn enc_columns(cs: Seq<ColumnDefV>) -> Seq<u8>
    decreases cs.len(),
{
    if cs.len() == 0 {
        Seq::empty()
    } else {
        enc_column(cs[0]) + enc_columns(cs.subrange(1, cs.len() as int))
    }
}

pub open spec fn enc_index(x: SchemaIndexV) -> Seq<u8> {
    enc_bytes(x.name) + u64_be(x.column) + seq![ord_tag(x.order)]
}

pub open spec fn enc_indexes(xs: Seq<SchemaIndexV>) -> Seq<u8>
    decreases xs.len(),
{
    if xs.len() == 0 {
        Seq::empty()
    } else {
        enc_index(xs[0]) + enc_indexes(xs.subrange(1, xs.len() as int))
    }
}

pub open spec fn enc_schema(s: SchemaV) -> Seq<u8> {
    enc_bytes(s.table_name) + u64_be(s.column_defs.len() as u64) + enc_columns(s.column_defs)
        + u64_be(s.indexes.len() as u64) + enc_indexes(s.indexes)
}

pub open spec fn enc_snapshot(s: SnapshotV) -> Seq<u8> {
    match s {
        SnapshotV::Committed(v) => seq![1u8] + enc_schema(v),
        SnapshotV::PendingDelete(t, v) => seq![2u8] + u64_be(t) + enc_schema(v),
        SnapshotV::PendingUpdate(t, o, n) => seq![3u8] + u64_be(t) + enc_schema(o) + enc_schema(n),
    }
}

/// All counts and name lengths fit the length prefix. Every schema held in a
/// `Vec`-backed value satisfies this.
pub open spec fn columns_encodable(cs: Seq<ColumnDefV>) -> bool
    decreases cs.len(),
{
    cs.len() == 0 || (cs[0].name.len() <= u64::MAX && columns_encodable(
        cs.subrange(1, cs.len() as int),
    ))
}

pub open spec fn indexes_encodable(xs: Seq<SchemaIndexV>) -> bool
    decreases xs.len(),
{
    xs.len() == 0 || (xs[0].name.len() <= u64::MAX && indexes_encodable(
        xs.subrange(1, xs.len() as int),
    ))
}

pub open spec fn schema_encodable(s: SchemaV) -> bool {
    s.table_name.len() <= u64::MAX && s.column_defs.len() <= u64::MAX && s.indexes.len()
        <= u64::MAX && columns_encodable(s.column_defs) && indexes_encodable(s.indexes)
}

/// Every schema backed by `Vec` fields is encodable: each length is a `usize`.
pub proof fn lemma_columns_encodable(cs: Seq<ColumnDefV>)
    requires
        forall|i: int| 0 <= i < cs.len() ==> #[trigger] cs[i].name.len() <= u64::MAX,
    ensures
        columns_encodable(cs),
    decreases cs.len(),
{
    if cs.len() > 0 {
        let tail = cs.subrange(1, cs.len() as int);
        assert(forall|i: int| 0 <= i < tail.len() ==> #[trigger] tail[i].name.len() <= u64::MAX);
        lemma_columns_encodable(tail);
    }
}

pub proof fn lemma_indexes_encodable(xs: Seq<SchemaIndexV>)
    requires
        forall|i: int| 0 <= i < xs.len() ==> #[trigger] xs[i].name.len() <= u64::MAX,
    ensures
        indexes_encodable(xs),
    decreases xs.len(),
{
    if xs.len() > 0 {
        let tail = xs.subrange(1, xs.len() as int);
        assert(forall|i: int| 0 <= i < tail.len() ==> #[trigger] tail[i].name.len() <= u64::MAX);
        lemma_indexes_encodable(tail);
    }
}

pub open spec fn snapshot_encodable(s: SnapshotV) -> bool {
    match s {
        SnapshotV::Committed(v) => schema_encodable(v),
        SnapshotV::PendingDelete(_, v) => schema_encodable(v),
        SnapshotV::PendingUpdate(_, o, n) => schema_encodable(o) && schema_encodable(n),
    }
}

// ---------------------------------------------------------------------------
// spec decoders (consume from the front, hand back the rest)
// ---------------------------------------------------------------------------

pub open spec fn dec_u64(s: Seq<u8>) -> Option<(u64, Seq<u8>)> {
    if s.len() >= 8 {
        Some((u64_from_be(s.subrange(0, 8)), s.skip(8)))
    } else {
        None
    }
}

pub open spec fn dec_bytes(s: Seq<u8>) -> Option<(Seq<u8>, Seq<u8>)> {
    match dec_u64(s) {
        None => None,
        Some((n, rest)) => if rest.len() >= n {
            Some((rest.subrange(0, n as int), rest.skip(n as int)))
        } else {
            None
        },
    }
}

pub open spec fn dec_value(s: Seq<u8>) -> Option<(Value, Seq<u8>)> {
    if s.len() == 0 {
        None
    } else if s[0] == 1 {
        if s.len() >= 9 {
            Some((Value::I64(u64_from_be(s.subrange(1, 9)) as i64), s.skip(9)))
        } else {
            None
        }
    } else if s[0] == 2 {
        if s.len() >= 2 && (s[1] == 0 || s[1] == 1) {
            Some((Value::Bool(s[1] == 1), s.skip(2)))
        } else {
            None
        }
    } else if s[0] == 3 {
        Some((Value::Null, s.skip(1)))
    } else {
        None
    }
}

pub open spec fn dec_values(s: Seq<u8>, n: nat) -> Option<(Seq<Value>, Seq<u8>)>
    decreases n,
{
    if n == 0 {
        Some((Seq::empty(), s))
    } else {
        match dec_value(s) {
            None => None,
            Some((v, rest)) => match dec_values(rest, (n - 1) as nat) {
                None => None,
                Some((vs, rest2)) => Some((seq![v] + vs, rest2)),
            },
        }
    }
}

/// A whole row value: count, values, nothing left over.
pub open spec fn dec_row(s: Seq<u8>) -> Option<Seq<Value>> {
    match dec_u64(s) {
        None => None,
        Some((n, rest)) => match dec_values(rest, n as nat) {
            None => None,
            Some((vs, rest2)) => if rest2.len() == 0 {
                Some(vs)
            } else {
                None
            },
        },
    }
}

pub open spec fn dec_data_type(t: u8) -> Option<DataType> {
    if t == 1 {
        Some(DataType::Int)
    } else if t == 2 {
        Some(DataType::Bool)
    } else {
        None
    }
}

pub open spec fn dec_ord(t: u8) -> Option<SchemaIndexOrd> {
    if t == 1 {
        Some(SchemaIndexOrd::Asc)
    } else if t == 2 {
        Some(SchemaIndexOrd::Desc)
    } else if t == 3 {
        Some(SchemaIndexOrd::Both)
    } else {
        None
    }
}

pub open spec fn dec_column(s: Seq<u8>) -> Option<(ColumnDefV, Seq<u8>)> {
    match dec_bytes(s) {
        None => None,
        Some((name, rest)) => if rest.len() >= 1 {
            match dec_data_type(rest[0]) {
                None => None,
                Some(t) => Some((ColumnDefV { name, data_type: t }, rest.skip(1))),
            }
        } else {
            None
        },
    }
}

pub open spec fn dec_columns(s: Seq<u8>, n: nat) -> Option<(Seq<ColumnDefV>, Seq<u8>)>
    decreases n,
{
    if n == 0 {
        Some((Seq::empty(), s))
    } else {
        match dec_column(s) {
            None => None,
            Some((c, rest)) => match dec_columns(rest, (n - 1) as nat) {
                None => None,
                Some((cs, rest2)) => Some((seq![c] + cs, rest2)),
            },
        }
    }
}

pub open spec fn dec_index(s: Seq<u8>) -> Option<(SchemaIndexV, Seq<u8>)> {
    match dec_bytes(s) {
        None => None,
        Some((name, rest)) => match dec_u64(rest) {
            None => None,
            Some((col, rest2)) => if rest2.len() >= 1 {
                match dec_ord(rest2[0]) {
                    None => None,
                    Some(o) => Some(
                        (SchemaIndexV { name, column: col, order: o }, rest2.skip(1)),
                    ),
                }
            } else {
                None
            },
        },
    }
}

pub open spec fn dec_indexes(s: Seq<u8>, n: nat) -> Option<(Seq<SchemaIndexV>, Seq<u8>)>
    decreases n,
{
    if n == 0 {
        Some((Seq::empty(), s))
    } else {
        match dec_index(s) {
            None => None,
            Some((x, rest)) => match dec_indexes(rest, (n - 1) as nat) {
                None => None,
                Some((xs, rest2)) => Some((seq![x] + xs, rest2)),
            },
        }
    }
}

pub open spec fn dec_schema(s: Seq<u8>) -> Option<(SchemaV, Seq<u8>)> {
    match dec_bytes(s) {
        None => None,
        Some((name, r1)) => match dec_u64(r1) {
            None => None,
            Some((nc, r2)) => match dec_columns(r2, nc as nat) {
                None => None,
                Some((cs, r3)) => match dec_u64(r3) {
                    None => None,
                    Some((nx, r4)) => match dec_indexes(r4, nx as nat) {
                        None => None,
                        Some((xs, r5)) => Some(
                            (SchemaV { table_name: name, column_defs: cs, indexes: xs }, r5),
                        ),
                    },
                },
            },
        },
    }
}

/// A whole snapshot value: tag, payload, nothing left over.
pub open spec fn dec_snapshot(s: Seq<u8>) -> Option<SnapshotV> {
    if s.len() == 0 {
        None
    } else if s[0] == 1 {
        match dec_schema(s.skip(1)) {
            Some((v, rest)) => if rest.len() == 0 {
                Some(SnapshotV::Committed(v))
            } else {
                None
            },
            None => None,
        }
    } else if s[0] == 2 {
        match dec_u64(s.skip(1)) {
            None => None,
            Some((t, r1)) => match dec_schema(r1) {
                Some((v, rest)) => if rest.len() == 0 {
                    Some(SnapshotV::PendingDelete(t, v))
                } else {
                    None
                },
                None => None,
            },
        }
    } else if s[0] == 3 {
        match dec_u64(s.skip(1)) {
            None => None,
            Some((t, r1)) => match dec_schema(r1) {
                None => None,
                Some((o, r2)) => match dec_schema(r2) {
                    Some((n, rest)) => if rest.len() == 0 {
                        Some(SnapshotV::PendingUpdate(t, o, n))
                    } else {
                        None
                    },
                    None => None,
                },
            },
        }
    } else {
        None
    }
}

// ---------------------------------------------------------------------------
// round-trip lemmas
// ---------------------------------------------------------------------------

pub proof fn lemma_dec_u64_enc(x: u64, rest: Seq<u8>)
    ensures
        dec_u64(u64_be(x) + rest) == Some((x, rest)),
{
    lemma_split(u64_be(x), rest);
    crate::bytes::lemma_u64_be_round_trip(x);
}

pub proof fn lemma_dec_bytes_enc(b: Seq<u8>, rest: Seq<u8>)
    requires
        b.len() <= u64::MAX,
    ensures
        dec_bytes(enc_bytes(b) + rest) == Some((b, rest)),
{
    lemma_assoc(u64_be(b.len() as u64), b, rest);
    lemma_dec_u64_enc(b.len() as u64, b + rest);
    lemma_split(b, rest);
}

pub proof fn lemma_dec_value_enc(v: Value, rest: Seq<u8>)
    ensures
        dec_value(enc_value(v) + rest) == Some((v, rest)),
{
    match v {
        Value::I64(x) => {
            let s = enc_value(v) + rest;
            lemma_assoc(seq![1u8], u64_be(x as u64), rest);
            assert(s.skip(1) =~= u64_be(x as u64) + rest);
            lemma_split(u64_be(x as u64), rest);
            assert(s.subrange(1, 9) =~= u64_be(x as u64));
            assert(s.skip(9) =~= rest);
            crate::bytes::lemma_u64_be_round_trip(x as u64);
            assert((x as u64) as i64 == x) by (bit_vector);
        },
        Value::Bool(b) => {
            let s = enc_value(v) + rest;
            assert(s.skip(2) =~= rest);
        },
        Value::Null => {
            let s = enc_value(v) + rest;
            assert(s.skip(1) =~= rest);
        },
    }
}

pub proof fn lemma_dec_values_enc(vs: Seq<Value>, rest: Seq<u8>)
    ensures
        dec_values(enc_values(vs) + rest, vs.len()) == Some((vs, rest)),
    decreases vs.len(),
{
    if vs.len() == 0 {
        assert(enc_values(vs) + rest =~= rest);
        assert(dec_values(rest, 0) == Some((Seq::<Value>::empty(), rest)));
        assert(vs =~= Seq::<Value>::empty());
    } else {
        let tail = vs.subrange(1, vs.len() as int);
        lemma_assoc(enc_value(vs[0]), enc_values(tail), rest);
        lemma_dec_value_enc(vs[0], enc_values(tail) + rest);
        lemma_dec_values_enc(tail, rest);
        assert(seq![vs[0]] + tail =~= vs);
    }
}

pub proof fn lemma_dec_row_enc(vs: Seq<Value>)
    requires
        vs.len() <= u64::MAX,
    ensures
        dec_row(enc_row(vs)) == Some(vs),
{
    assert(enc_row(vs) =~= u64_be(vs.len() as u64) + enc_values(vs));
    lemma_dec_u64_enc(vs.len() as u64, enc_values(vs));
    assert(enc_values(vs) =~= enc_values(vs) + Seq::<u8>::empty());
    lemma_dec_values_enc(vs, Seq::empty());
}

pub proof fn lemma_dec_column_enc(c: ColumnDefV, rest: Seq<u8>)
    requires
        c.name.len() <= u64::MAX,
    ensures
        dec_column(enc_column(c) + rest) == Some((c, rest)),
{
    lemma_assoc(enc_bytes(c.name), seq![data_type_tag(c.data_type)], rest);
    lemma_dec_bytes_enc(c.name, seq![data_type_tag(c.data_type)] + rest);
    assert((seq![data_type_tag(c.data_type)] + rest).skip(1) =~= rest);
}

#[verifier::spinoff_prover]
pub proof fn lemma_dec_columns_enc(cs: Seq<ColumnDefV>, rest: Seq<u8>)
    requires
        columns_encodable(cs),
    ensures
        dec_columns(enc_columns(cs) + rest, cs.len()) == Some((cs, rest)),
    decreases cs.len(),
{
    if cs.len() == 0 {
        assert(enc_columns(cs) + rest =~= rest);
        assert(cs =~= Seq::<ColumnDefV>::empty());
    } else {
        let tail = cs.subrange(1, cs.len() as int);
        let e_tail = enc_columns(tail) + rest;
        lemma_assoc(enc_column(cs[0]), enc_columns(tail), rest);
        assert(enc_columns(cs) + rest == enc_column(cs[0]) + e_tail);
        lemma_dec_column_enc(cs[0], e_tail);
        lemma_dec_columns_enc(tail, rest);
        assert(dec_columns(enc_columns(cs) + rest, cs.len()) == Some((seq![cs[0]] + tail, rest)));
        assert(seq![cs[0]] + tail =~= cs);
    }
}

pub proof fn lemma_dec_index_enc(x: SchemaIndexV, rest: Seq<u8>)
    requires
        x.name.len() <= u64::MAX,
    ensures
        dec_index(enc_index(x) + rest) == Some((x, rest)),
{
    let mid = u64_be(x.column) + seq![ord_tag(x.order)];
    assert(enc_index(x) =~= enc_bytes(x.name) + mid);
    lemma_assoc(enc_bytes(x.name), mid, rest);
    lemma_dec_bytes_enc(x.name, mid + rest);
    lemma_assoc(u64_be(x.column), seq![ord_tag(x.order)], rest);
    assert(mid + rest =~= u64_be(x.column) + (seq![ord_tag(x.order)] + rest));
    lemma_dec_u64_enc(x.column, seq![ord_tag(x.order)] + rest);
    assert((seq![ord_tag(x.order)] + rest).skip(1) =~= rest);
}

#[verifier::spinoff_prover]
pub proof fn lemma_dec_indexes_enc(xs: Seq<SchemaIndexV>, rest: Seq<u8>)
    requires
        indexes_encodable(xs),
    ensures
        dec_indexes(enc_indexes(xs) + rest, xs.len()) == Some((xs, rest)),
    decreases xs.len(),
{
    if xs.len() == 0 {
        assert(enc_indexes(xs) + rest =~= rest);
        assert(xs =~= Seq::<SchemaIndexV>::empty());
    } else {
        let tail = xs.subrange(1, xs.len() as int);
        let e_tail = enc_indexes(tail) + rest;
        lemma_assoc(enc_index(xs[0]), enc_indexes(tail), rest);
        assert(enc_indexes(xs) + rest == enc_index(xs[0]) + e_tail);
        lemma_dec_index_enc(xs[0], e_tail);
        lemma_dec_indexes_enc(tail, rest);
        assert(dec_indexes(enc_indexes(xs) + rest, xs.len()) == Some((seq![xs[0]] + tail, rest)));
        assert(seq![xs[0]] + tail =~= xs);
    }
}

#[verifier::rlimit(100)]
#[verifier::spinoff_prover]
pub proof fn lemma_dec_schema_enc(s: SchemaV, rest: Seq<u8>)
    requires
        schema_encodable(s),
    ensures
        dec_schema(enc_schema(s) + rest) == Some((s, rest)),
{
    let p1 = enc_bytes(s.table_name);
    let p2 = u64_be(s.column_defs.len() as u64);
    let p3 = enc_columns(s.column_defs);
    let p4 = u64_be(s.indexes.len() as u64);
    let p5 = enc_indexes(s.indexes);
    assert(enc_schema(s) + rest =~= p1 + (p2 + (p3 + (p4 + (p5 + rest)))));
    lemma_dec_bytes_enc(s.table_name, p2 + (p3 + (p4 + (p5 + rest))));
    assert(dec_bytes(enc_schema(s) + rest) == Some((s.table_name, p2 + (p3 + (p4 + (p5 + rest))))));
    lemma_dec_u64_enc(s.column_defs.len() as u64, p3 + (p4 + (p5 + rest)));
    assert(dec_u64(p2 + (p3 + (p4 + (p5 + rest)))) == Some((s.column_defs.len() as u64, p3 + (p4 + (p5 + rest)))));
    lemma_dec_columns_enc(s.column_defs, p4 + (p5 + rest));
    assert(dec_columns(p3 + (p4 + (p5 + rest)), s.column_defs.len()) == Some((s.column_defs, p4 + (p5 + rest))));
    lemma_dec_u64_enc(s.indexes.len() as u64, p5 + rest);
    assert(dec_u64(p4 + (p5 + rest)) == Some((s.indexes.len() as u64, p5 + rest)));
    lemma_dec_indexes_enc(s.indexes, rest);
    assert(dec_indexes(p5 + rest, s.indexes.len()) == Some((s.indexes, rest)));
}

/// Serialize then deserialize of a snapshot record is the identity.
#[verifier::rlimit(100)]
#[verifier::spinoff_prover]
pub proof fn lemma_snapshot_round_trip(s: SnapshotV)
    requires
        snapshot_encodable(s),
    ensures
        dec_snapshot(enc_snapshot(s)) == Some(s),
{
    match s {
        SnapshotV::Committed(v) => {
            let e = enc_snapshot(s);
            assert(e.skip(1) =~= enc_schema(v) + Seq::<u8>::empty());
            lemma_dec_schema_enc(v, Seq::empty());
        },
        SnapshotV::PendingDelete(t, v) => {
            let e = enc_snapshot(s);
            assert(e.skip(1) =~= u64_be(t) + (enc_schema(v) + Seq::<u8>::empty()));
            lemma_dec_u64_enc(t, enc_schema(v) + Seq::<u8>::empty());
            lemma_dec_schema_enc(v, Seq::empty());
        },
        SnapshotV::PendingUpdate(t, o, n) => {
            let e = enc_snapshot(s);
            assert(e.skip(1) =~= u64_be(t) + (enc_schema(o) + (enc_schema(n)
                + Seq::<u8>::empty())));
            lemma_dec_u64_enc(t, enc_schema(o) + (enc_schema(n) + Seq::<u8>::empty()));
            lemma_dec_schema_enc(o, enc_schema(n) + Seq::<u8>::empty());
            lemma_dec_schema_enc(n, Seq::empty());
        },
    }
}

// ---------------------------------------------------------------------------
// executable encoders
// ---------------------------------------------------------------------------

pub fn enc_bytes_into(dst: &mut Vec<u8>, b: &Vec<u8>)
    ensures
        final(dst)@ == old(dst)@ + enc_bytes(b@),
{
    append_u64_be(dst, b.len() as u64);
    append(dst, b);
    assert(dst@ =~= old(dst)@ + enc_bytes(b@));
}

pub fn enc_value_into(dst: &mut Vec<u8>, v: &Value)
    ensures
        final(dst)@ == old(dst)@ + enc_value(*v),
{
    match v {
        Value::I64(x) => {
            dst.push(1u8);
            append_u64_be(dst, *x as u64);
            assert(dst@ =~= old(dst)@ + enc_value(*v));
        },
        Value::Bool(b) => {
            dst.push(2u8);
            dst.push(if *b { 1u8 } else { 0u8 });
            assert(dst@ =~= old(dst)@ + enc_value(*v));
        },
        Value::Null => {
            dst.push(3u8);
            assert(dst@ =~= old(dst)@ + enc_value(*v));
        },
    }
}

pub fn enc_values_into(dst: &mut Vec<u8>, vals: &Vec<Value>, from: usize)
    requires
        from <= vals@.len(),
    ensures
        final(dst)@ == old(dst)@ + enc_values(vals@.skip(from as int)),
    decreases vals@.len() - from,
{
    if from < vals.len() {
        enc_value_into(dst, &vals[from]);
        enc_values_into(dst, vals, from + 1);
        proof {
            let s = vals@.skip(from as int);
            assert(s[0] == vals@[from as int]);
            assert(s.subrange(1, s.len() as int) =~= vals@.skip(from + 1 as int));
            lemma_assoc(old(dst)@, enc_value(vals@[from as int]), enc_values(vals@.skip(from + 1 as int)));
        }
    } else {
        assert(enc_values(vals@.skip(from as int)) =~= Seq::<u8>::empty());
        assert(dst@ =~= old(dst)@ + enc_values(vals@.skip(from as int)));
    }
}

/// The persisted image of a row.
pub fn encode_row(row: &Row) -> (r: Vec<u8>)
    ensures
        r@ == enc_row(row@),
{
    let mut out: Vec<u8> = Vec::new();
    append_u64_be(&mut out, row.len() as u64);
    enc_values_into(&mut out, row, 0);
    assert(row@.skip(0) =~= row@);
    assert(out@ =~= enc_row(row@));
    out
}

pub fn enc_column_into(dst: &mut Vec<u8>, c: &ColumnDef)
    ensures
        final(dst)@ == old(dst)@ + enc_column(c@),
{
    enc_bytes_into(dst, &c.name);
    dst.push(match c.data_type {
        DataType::Int => 1u8,
        DataType::Bool => 2u8,
    });
    assert(dst@ =~= old(dst)@ + enc_column(c@));
}

pub fn enc_columns_into(dst: &mut Vec<u8>, cols: &Vec<ColumnDef>, from: usize)
    requires
        from <= cols@.len(),
    ensures
        final(dst)@ == old(dst)@ + enc_columns(cols@.map(|i: int, c: ColumnDef| c@).skip(from as int)),
    decreases cols@.len() - from,
{
    let ghost cv = cols@.map(|i: int, c: ColumnDef| c@);
    if from < cols.len() {
        enc_column_into(dst, &cols[from]);
        enc_columns_into(dst, cols, from + 1);
        proof {
            let s = cv.skip(from as int);
            assert(s[0] == cv[from as int]);
            assert(s.subrange(1, s.len() as int) =~= cv.skip(from + 1 as int));
            lemma_assoc(old(dst)@, enc_column(cv[from as int]), enc_columns(cv.skip(from + 1 as int)));
        }
    } else {
        assert(enc_columns(cv.skip(from as int)) =~= Seq::<u8>::empty());
        assert(dst@ =~= old(dst)@ + enc_columns(cv.skip(from as int)));
    }
}

pub fn enc_index_into(dst: &mut Vec<u8>, x: &SchemaIndex)
    ensures
        final(dst)@ == old(dst)@ + enc_index(x@),
{
    enc_bytes_into(dst, &x.name);
    append_u64_be(dst, x.column);
    dst.push(match x.order {
        SchemaIndexOrd::Asc => 1u8,
        SchemaIndexOrd::Desc => 2u8,
        SchemaIndexOrd::Both => 3u8,
    });
    assert(dst@ =~= old(dst)@ + enc_index(x@));
}

pub fn enc_indexes_into(dst: &mut Vec<u8>, xs: &Vec<SchemaIndex>, from: usize)
    requires
        from <= xs@.len(),
    ensures
        final(dst)@ == old(dst)@ + enc_indexes(xs@.map(|i: int, x: SchemaIndex| x@).skip(from as int)),
    decreases xs@.len() - from,
{
    let ghost xv = xs@.map(|i: int, x: SchemaIndex| x@);
    if from < xs.len() {
        enc_index_into(dst, &xs[from]);
        enc_indexes_into(dst, xs, from + 1);
        proof {
            let s = xv.skip(from as int);
            assert(s[0] == xv[from as int]);
            assert(s.subrange(1, s.len() as int) =~= xv.skip(from + 1 as int));
            lemma_assoc(old(dst)@, enc_index(xv[from as int]), enc_indexes(xv.skip(from + 1 as int)));
        }
    } else {
        assert(enc_indexes(xv.skip(from as int)) =~= Seq::<u8>::empty());
        assert(dst@ =~= old(dst)@ + enc_indexes(xv.skip(from as int)));
    }
}

pub fn enc_schema_into(dst: &mut Vec<u8>, s: &Schema)
    ensures
        final(dst)@ == old(dst)@ + enc_schema(s@),
{
    enc_bytes_into(dst, &s.table_name);
    append_u64_be(dst, s.column_defs.len() as u64);
    enc_columns_into(dst, &s.column_defs, 0);
    append_u64_be(dst, s.indexes.len() as u64);
    enc_indexes_into(dst, &s.indexes, 0);
    proof {
        assert(s@.column_defs.skip(0) =~= s@.column_defs);
        assert(s@.indexes.skip(0) =~= s@.indexes);
        assert(dst@ =~= old(dst)@ + enc_schema(s@));
    }
}

/// The persisted image of a schema snapshot record.
pub fn encode_snapshot(s: &Snapshot) -> (r: Vec<u8>)
    ensures
        r@ == enc_snapshot(s@),
{
    let mut out: Vec<u8> = Vec::new();
    match s {
        Snapshot::Committed(v) => {
            out.push(1u8);
            enc_schema_into(&mut out, v);
        },
        Snapshot::PendingDelete(t, v) => {
            out.push(2u8);
            append_u64_be(&mut out, *t);
            enc_schema_into(&mut out, v);
        },
        Snapshot::PendingUpdate(t, o, n) => {
            out.push(3u8);
            append_u64_be(&mut out, *t);
            enc_schema_into(&mut out, o);
            enc_schema_into(&mut out, n);
        },
    }
    assert(out@ =~= enc_snapshot(s@));
    out
}

/// The byte-comparable image of an indexed value: a rank tag, then for
/// integers the big-endian bytes with the sign bit flipped, so that unsigned
/// lexicographic order over the images matches the logical order of values.
pub open spec fn enc_index_value(v: Value) -> Seq<u8> {
    match v {
        Value::Null => seq![0u8],
        Value::Bool(b) => seq![1u8, if b { 1u8 } else { 0u8 }],
        Value::I64(x) => seq![2u8] + u64_be((x as u64) ^ 0x8000_0000_0000_0000),
    }
}

pub fn encode_index_value(v: &Value) -> (r: Vec<u8>)
    ensures
        r@ == enc_index_value(*v),
{
    let mut out: Vec<u8> = Vec::new();
    match v {
        Value::Null => {
            out.push(0u8);
        },
        Value::Bool(b) => {
            out.push(1u8);
            out.push(if *b { 1u8 } else { 0u8 });
        },
        Value::I64(x) => {
            out.push(2u8);
            append_u64_be(&mut out, (*x as u64) ^ 0x8000_0000_0000_0000);
        },
    }
    assert(out@ =~= enc_index_value(*v));
    out
}

// ---------------------------------------------------------------------------
// executable decoders
// ---------------------------------------------------------------------------

fn read_u64_at(s: &Vec<u8>, pos: usize) -> (r: Option<(u64, usize)>)
    requires
        pos <= s@.len(),
    ensures
        r is None ==> dec_u64(s@.skip(pos as int)) is None,
        r matches Some((x, p2)) ==> pos <= p2 <= s@.len() && dec_u64(s@.skip(pos as int))
            == Some((x, s@.skip(p2 as int))),
{
    if s.len() - pos >= 8 {
        let x: u64 = ((s[pos] as u64) << 56) | ((s[pos + 1] as u64) << 48)
            | ((s[pos + 2] as u64) << 40) | ((s[pos + 3] as u64) << 32)
            | ((s[pos + 4] as u64) << 24) | ((s[pos + 5] as u64) << 16)
            | ((s[pos + 6] as u64) << 8) | (s[pos + 7] as u64);
        proof {
            let t = s@.skip(pos as int);
            assert(t.subrange(0, 8) =~= s@.subrange(pos as int, pos + 8));
            assert(t.skip(8) =~= s@.skip(pos + 8));
            assert(x == u64_from_be(t.subrange(0, 8)));
        }
        Some((x, pos + 8))
    } else {
        None
    }
}

fn dec_value_at(s: &Vec<u8>, pos: usize) -> (r: Option<(Value, usize)>)
    requires
        pos <= s@.len(),
    ensures
        r is None ==> dec_value(s@.skip(pos as int)) is None,
        r matches Some((v, p2)) ==> pos <= p2 <= s@.len() && dec_value(s@.skip(pos as int))
            == Some((v, s@.skip(p2 as int))),
{
    let ghost t = s@.skip(pos as int);
    if pos >= s.len() {
        return None;
    }
    let tag = s[pos];
    assert(t[0] == tag);
    if tag == 1 {
        match read_u64_at(s, pos + 1) {
            None => {
                assert(t.len() < 9);
                None
            },
            Some((x, p2)) => {
                proof {
                    assert(t.len() >= 9);
                    assert(s@.skip(pos + 1).subrange(0, 8) =~= t.subrange(1, 9));
                    assert(t.skip(9) =~= s@.skip(pos + 9));
                }
                Some((Value::I64(x as i64), p2))
            },
        }
    } else if tag == 2 {
        if pos + 1 < s.len() {
            let b = s[pos + 1];
            assert(t[1] == b);
            if b == 0 || b == 1 {
                assert(t.skip(2) =~= s@.skip(pos + 2));
                Some((Value::Bool(b == 1), pos + 2))
            } else {
                None
            }
        } else {
            None
        }
    } else if tag == 3 {
        assert(t.skip(1) =~= s@.skip(pos + 1));
        Some((Value::Null, pos + 1))
    } else {
        None
    }
}

fn dec_values_at(s: &Vec<u8>, pos: usize, n: u64) -> (r: Option<(Vec<Value>, usize)>)
    requires
        pos <= s@.len(),
    ensures
        r is None ==> dec_values(s@.skip(pos as int), n as nat) is None,
        r matches Some((vs, p2)) ==> pos <= p2 <= s@.len() && dec_values(
            s@.skip(pos as int),
            n as nat,
        ) == Some((vs@, s@.skip(p2 as int))),
    decreases n,
{
    if n == 0 {
        let vs: Vec<Value> = Vec::new();
        assert(vs@ =~= Seq::<Value>::empty());
        Some((vs, pos))
    } else {
        match dec_value_at(s, pos) {
            None => None,
            Some((v, p1)) => match dec_values_at(s, p1, n - 1) {
                None => None,
                Some((mut vs, p2)) => {
                    let ghost tailv = vs@;
                    vs.insert(0, v);
                    assert(vs@ =~= seq![v] + tailv);
                    Some((vs, p2))
                },
            },
        }
    }
}

/// Decodes a persisted row image; `None` on any malformed input.
pub fn decode_row(s: &Vec<u8>) -> (r: Option<Row>)
    ensures
        r is None ==> dec_row(s@) is None,
        r matches Some(vs) ==> dec_row(s@) == Some(vs@),
{
    assert(s@.skip(0) =~= s@);
    match read_u64_at(s, 0) {
        None => None,
        Some((n, p1)) => match dec_values_at(s, p1, n) {
            None => None,
            Some((vs, p2)) => {
                if p2 == s.len() {
                    assert(s@.skip(p2 as int).len() == 0);
                    Some(vs)
                } else {
                    assert(s@.skip(p2 as int).len() != 0);
                    None
                }
            },
        },
    }
}

fn dec_bytes_at(s: &Vec<u8>, pos: usize) -> (r: Option<(Vec<u8>, usize)>)
    requires
        pos <= s@.len(),
    ensures
        r is None ==> dec_bytes(s@.skip(pos as int)) is None,
        r matches Some((b, p2)) ==> pos <= p2 <= s@.len() && dec_bytes(s@.skip(pos as int))
            == Some((b@, s@.skip(p2 as int))),
{
    let ghost t = s@.skip(pos as int);
    match read_u64_at(s, pos) {
        None => None,
        Some((n, p1)) => {
            if n <= (s.len() - p1) as u64 {
                let nn = n as usize;
                let slen = s.len();
                let mut b: Vec<u8> = Vec::new();
                let mut i: usize = 0;
                while i < nn
                    invariant
                        i <= nn,
                        p1 + nn <= slen,
                        slen == s@.len(),
                        b@ == s@.subrange(p1 as int, p1 + i as int),
                    decreases nn - i,
                {
                    b.push(s[p1 + i]);
                    assert(b@ =~= s@.subrange(p1 as int, p1 + (i + 1) as int));
                    i = i + 1;
                }
                proof {
                    let rest = s@.skip(p1 as int);
                    assert(dec_u64(t) == Some((n, rest)));
                    assert(rest.len() >= n);
                    assert(b@ =~= rest.subrange(0, n as int));
                    assert(rest.skip(n as int) =~= s@.skip(p1 + n as int));
                }
                Some((b, p1 + nn))
            } else {
                proof {
                    let rest = s@.skip(p1 as int);
                    assert(dec_u64(t) == Some((n, rest)));
                    assert(rest.len() < n);
                }
                None
            }
        },
    }
}

fn dec_column_at(s: &Vec<u8>, pos: usize) -> (r: Option<(ColumnDef, usize)>)
    requires
        pos <= s@.len(),
    ensures
        r is None ==> dec_column(s@.skip(pos as int)) is None,
        r matches Some((c, p2)) ==> pos <= p2 <= s@.len() && dec_column(s@.skip(pos as int))
            == Some((c@, s@.skip(p2 as int))),
{
    match dec_bytes_at(s, pos) {
        None => None,
        Some((name, p1)) => {
            if p1 < s.len() {
                let tag = s[p1];
                assert(s@.skip(p1 as int)[0] == tag);
                let dt = if tag == 1 {
                    Some(DataType::Int)
                } else if tag == 2 {
                    Some(DataType::Bool)
                } else {
                    None
                };
                match dt {
                    None => None,
                    Some(data_type) => {
                        assert(s@.skip(p1 as int).skip(1) =~= s@.skip(p1 + 1));
                        Some((ColumnDef { name, data_type }, p1 + 1))
                    },
                }
            } else {
                assert(s@.skip(p1 as int).len() < 1);
                None
            }
        },
    }
}

fn dec_columns_at(s: &Vec<u8>, pos: usize, n: u64) -> (r: Option<(Vec<ColumnDef>, usize)>)
    requires
        pos <= s@.len(),
    ensures
        r is None ==> dec_columns(s@.skip(pos as int), n as nat) is None,
        r matches Some((cs, p2)) ==> pos <= p2 <= s@.len() && dec_columns(
            s@.skip(pos as int),
            n as nat,
        ) == Some((cs@.map(|i: int, c: ColumnDef| c@), s@.skip(p2 as int))),
    decreases n,
{
    if n == 0 {
        let cs: Vec<ColumnDef> = Vec::new();
        assert(cs@.map(|i: int, c: ColumnDef| c@) =~= Seq::<ColumnDefV>::empty());
        Some((cs, pos))
    } else {
        match dec_column_at(s, pos) {
            None => None,
            Some((c, p1)) => match dec_columns_at(s, p1, n - 1) {
                None => None,
                Some((mut cs, p2)) => {
                    let ghost cv = c@;
                    let ghost tailv = cs@.map(|i: int, c0: ColumnDef| c0@);
                    cs.insert(0, c);
                    assert(cs@.map(|i: int, c0: ColumnDef| c0@) =~= seq![cv] + tailv);
                    Some((cs, p2))
                },
            },
        }
    }
}

fn dec_index_at(s: &Vec<u8>, pos: usize) -> (r: Option<(SchemaIndex, usize)>)
    requires
        pos <= s@.len(),
    ensures
        r is None ==> dec_index(s@.skip(pos as int)) is None,
        r matches Some((x, p2)) ==> pos <= p2 <= s@.len() && dec_index(s@.skip(pos as int))
            == Some((x@, s@.skip(p2 as int))),
{
    match dec_bytes_at(s, pos) {
        None => None,
        Some((name, p1)) => match read_u64_at(s, p1) {
            None => None,
            Some((col, p2)) => {
                if p2 < s.len() {
                    let tag = s[p2];
                    assert(s@.skip(p2 as int)[0] == tag);
                    let o = if tag == 1 {
                        Some(SchemaIndexOrd::Asc)
                    } else if tag == 2 {
                        Some(SchemaIndexOrd::Desc)
                    } else if tag == 3 {
                        Some(SchemaIndexOrd::Both)
                    } else {
                        None
                    };
                    match o {
                        None => None,
                        Some(order) => {
                            assert(s@.skip(p2 as int).skip(1) =~= s@.skip(p2 + 1));
                            Some((SchemaIndex { name, column: col, order }, p2 + 1))
                        },
                    }
                } else {
                    assert(s@.skip(p2 as int).len() < 1);
                    None
                }
            },
        },
    }
}

fn dec_indexes_at(s: &Vec<u8>, pos: usize, n: u64) -> (r: Option<(Vec<SchemaIndex>, usize)>)
    requires
        pos <= s@.len(),
    ensures
        r is None ==> dec_indexes(s@.skip(pos as int), n as nat) is None,
        r matches Some((xs, p2)) ==> pos <= p2 <= s@.len() && dec_indexes(
            s@.skip(pos as int),
            n as nat,
        ) == Some((xs@.map(|i: int, x: SchemaIndex| x@), s@.skip(p2 as int))),
    decreases n,
{
    if n == 0 {
        let xs: Vec<SchemaIndex> = Vec::new();
        assert(xs@.map(|i: int, x: SchemaIndex| x@) =~= Seq::<SchemaIndexV>::empty());
        Some((xs, pos))
    } else {
        match dec_index_at(s, pos) {
            None => None,
            Some((x, p1)) => match dec_indexes_at(s, p1, n - 1) {
                None => None,
                Some((mut xs, p2)) => {
                    let ghost xv = x@;
                    let ghost tailv = xs@.map(|i: int, x0: SchemaIndex| x0@);
                    xs.insert(0, x);
                    assert(xs@.map(|i: int, x0: SchemaIndex| x0@) =~= seq![xv] + tailv);
                    Some((xs, p2))
                },
            },
        }
    }
}

fn dec_schema_at(s: &Vec<u8>, pos: usize) -> (r: Option<(Schema, usize)>)
    requires
        pos <= s@.len(),
    ensures
        r is None ==> dec_schema(s@.skip(pos as int)) is None,
        r matches Some((sc, p2)) ==> pos <= p2 <= s@.len() && dec_schema(s@.skip(pos as int))
            == Some((sc@, s@.skip(p2 as int))),
{
    match dec_bytes_at(s, pos) {
        None => None,
        Some((table_name, p1)) => match read_u64_at(s, p1) {
            None => None,
            Some((nc, p2)) => match dec_columns_at(s, p2, nc) {
                None => None,
                Some((column_defs, p3)) => match read_u64_at(s, p3) {
                    None => None,
                    Some((nx, p4)) => match dec_indexes_at(s, p4, nx) {
                        None => None,
                        Some((indexes, p5)) => Some(
                            (Schema { table_name, column_defs, indexes }, p5),
                        ),
                    },
                },
            },
        },
    }
}

/// Decodes a persisted snapshot image; `None` on any malformed input.
pub fn decode_snapshot(s: &Vec<u8>) -> (r: Option<Snapshot>)
    ensures
        r is None ==> dec_snapshot(s@) is None,
        r matches Some(sn) ==> dec_snapshot(s@) == Some(sn@),
{
    if s.len() == 0 {
        return None;
    }
    let tag = s[0];
    assert(s@[0] == tag);
    assert(s@.skip(0).skip(1) =~= s@.skip(1));
    if tag == 1 {
        match dec_schema_at(s, 1) {
            None => None,
            Some((v, p)) => {
                if p == s.len() {
                    assert(s@.skip(p as int).len() == 0);
                    Some(Snapshot::Committed(v))
                } else {
                    assert(s@.skip(p as int).len() != 0);
                    None
                }
            },
        }
    } else if tag == 2 {
        match read_u64_at(s, 1) {
            None => None,
            Some((t, p1)) => match dec_schema_at(s, p1) {
                None => None,
                Some((v, p)) => {
                    if p == s.len() {
                        assert(s@.skip(p as int).len() == 0);
                        Some(Snapshot::PendingDelete(t, v))
                    } else {
                        assert(s@.skip(p as int).len() != 0);
                        None
                    }
                },
            },
        }
    } else if tag == 3 {
        match read_u64_at(s, 1) {
            None => None,
            Some((t, p1)) => match dec_schema_at(s, p1) {
                None => None,
                Some((o, p2)) => match dec_schema_at(s, p2) {
                    None => None,
                    Some((n, p)) => {
                        if p == s.len() {
                            assert(s@.skip(p as int).len() == 0);
                            Some(Snapshot::PendingUpdate(t, o, n))
                        } else {
                            assert(s@.skip(p as int).len() != 0);
                            None
                        }
                    },
                },
            },
        }
    } else {
        None
    }
}

} // verus!
