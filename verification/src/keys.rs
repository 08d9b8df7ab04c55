//! Key codec: the one place that knows how schemas, rows, index entries,
//! temp markers and the global lock are laid out in the ordered keyspace.
//!
//! Layouts, as byte strings:
//! - schema record:   `schema/<table>`
//! - row record:      `data/<table>/<big-endian u64 id>`
//! - index entry:     `index/<table>/<index-name>/<encoded-value>/<row-key>`
//! - temp marker:     `temp_schema/<big-endian u64 txid>/<table>`
//! - global lock:     the single zero byte, which no other key starts with.

use vstd::prelude::*;

use crate::bytes::{append, append_u64_be, u64_be};

verus! {

pub open spec fn slash() -> u8 {
    47
}

/// The bytes of `schema/`.
pub open spec fn schema_prefix() -> Seq<u8> {
    seq![115u8, 99, 104, 101, 109, 97, 47]
}

/// The bytes of `data/`.
pub open spec fn data_root() -> Seq<u8> {
    seq![100u8, 97, 116, 97, 47]
}

/// The bytes of `index/`.
pub open spec fn index_root() -> Seq<u8> {
    seq![105u8, 110, 100, 101, 120, 47]
}

/// The bytes of `temp_schema/`.
pub open spec fn temp_root() -> Seq<u8> {
    seq![116u8, 101, 109, 112, 95, 115, 99, 104, 101, 109, 97, 47]
}

pub open spec fn spec_lock_key() -> Seq<u8> {
    seq![0u8]
}

pub open spec fn spec_schema_key(table: Seq<u8>) -> Seq<u8> {
    schema_prefix() + table
}

/// The prefix under which every row of `table` lives.
pub open spec fn spec_data_prefix(table: Seq<u8>) -> Seq<u8> {
    data_root() + table + seq![slash()]
}

pub open spec fn spec_data_key(table: Seq<u8>, id: u64) -> Seq<u8> {
    spec_data_prefix(table) + u64_be(id)
}

/// The prefix under which every entry of index `name` on `table` lives.
pub open spec fn spec_index_prefix(table: Seq<u8>, name: Seq<u8>) -> Seq<u8> {
    index_root() + table + seq![slash()] + name + seq![slash()]
}

pub open spec fn spec_index_entry_key(
    table: Seq<u8>,
    name: Seq<u8>,
    enc_value: Seq<u8>,
    row_key: Seq<u8>,
) -> Seq<u8> {
    spec_index_prefix(table, name) + enc_value + seq![slash()] + row_key
}

pub open spec fn spec_temp_key(txid: u64, table: Seq<u8>) -> Seq<u8> {
    temp_root() + u64_be(txid) + seq![slash()] + table
}

pub fn lock_key() -> (r: Vec<u8>)
    ensures
        r@ == spec_lock_key(),
{
    let mut k: Vec<u8> = Vec::new();
    k.push(0u8);
    assert(k@ =~= spec_lock_key());
    k
}

pub fn schema_key(table: &Vec<u8>) -> (r: Vec<u8>)
    ensures
        r@ == spec_schema_key(table@),
{
    let mut k: Vec<u8> = Vec::new();
    k.push(115u8);
    k.push(99u8);
    k.push(104u8);
    k.push(101u8);
    k.push(109u8);
    k.push(97u8);
    k.push(47u8);
    assert(k@ =~= schema_prefix());
    append(&mut k, table);
    k
}

pub fn data_prefix(table: &Vec<u8>) -> (r: Vec<u8>)
    ensures
        r@ == spec_data_prefix(table@),
{
    let mut k: Vec<u8> = Vec::new();
    k.push(100u8);
    k.push(97u8);
    k.push(116u8);
    k.push(97u8);
    k.push(47u8);
    assert(k@ =~= data_root());
    append(&mut k, table);
    k.push(47u8);
    assert(k@ =~= spec_data_prefix(table@));
    k
}

pub fn data_key(table: &Vec<u8>, id: u64) -> (r: Vec<u8>)
    ensures
        r@ == spec_data_key(table@, id),
{
    let mut k = data_prefix(table);
    append_u64_be(&mut k, id);
    k
}

pub fn index_prefix(table: &Vec<u8>, name: &Vec<u8>) -> (r: Vec<u8>)
    ensures
        r@ == spec_index_prefix(table@, name@),
{
    let mut k: Vec<u8> = Vec::new();
    k.push(105u8);
    k.push(110u8);
    k.push(100u8);
    k.push(101u8);
    k.push(120u8);
    k.push(47u8);
    assert(k@ =~= index_root());
    append(&mut k, table);
    k.push(47u8);
    append(&mut k, name);
    k.push(47u8);
    assert(k@ =~= spec_index_prefix(table@, name@));
    k
}

pub fn index_entry_key(
    table: &Vec<u8>,
    name: &Vec<u8>,
    enc_value: &Vec<u8>,
    row_key: &Vec<u8>,
) -> (r: Vec<u8>)
    ensures
        r@ == spec_index_entry_key(table@, name@, enc_value@, row_key@),
{
    let mut k = index_prefix(table, name);
    append(&mut k, enc_value);
    k.push(47u8);
    append(&mut k, row_key);
    assert(k@ =~= spec_index_entry_key(table@, name@, enc_value@, row_key@));
    k
}

pub fn temp_key(txid: u64, table: &Vec<u8>) -> (r: Vec<u8>)
    ensures
        r@ == spec_temp_key(txid, table@),
{
    let mut k: Vec<u8> = Vec::new();
    k.push(116u8);
    k.push(101u8);
    k.push(109u8);
    k.push(112u8);
    k.push(95u8);
    k.push(115u8);
    k.push(99u8);
    k.push(104u8);
    k.push(101u8);
    k.push(109u8);
    k.push(97u8);
    k.push(47u8);
    assert(k@ =~= temp_root());
    append_u64_be(&mut k, txid);
    k.push(47u8);
    append(&mut k, table);
    assert(k@ =~= spec_temp_key(txid, table@));
    k
}

/// Keys of the five families never coincide across families: the first byte
/// already tells them apart.
pub proof fn lemma_key_families_disjoint(
    t1: Seq<u8>,
    t2: Seq<u8>,
    n: Seq<u8>,
    v: Seq<u8>,
    rk: Seq<u8>,
    id: u64,
    txid: u64,
)
    ensures
        spec_schema_key(t1)[0] == 115,
        spec_data_key(t2, id)[0] == 100,
        spec_index_entry_key(t2, n, v, rk)[0] == 105,
        spec_temp_key(txid, t2)[0] == 116,
        spec_lock_key()[0] == 0,
{
}

} // verus!
