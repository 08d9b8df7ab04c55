//! Byte-string helpers shared by the key codec and the record codec.

use vstd::prelude::*;

verus! {

/// `p` is a prefix of `k`.
pub open spec fn is_prefix(p: Seq<u8>, k: Seq<u8>) -> bool {
    p.len() <= k.len() && k.subrange(0, p.len() as int) == p
}

/// The big-endian byte image of a `u64`, most significant byte first.
pub open spec fn u64_be(x: u64) -> Seq<u8> {
    seq![
        ((x >> 56) & 0xff) as u8,
        ((x >> 48) & 0xff) as u8,
        ((x >> 40) & 0xff) as u8,
        ((x >> 32) & 0xff) as u8,
        ((x >> 24) & 0xff) as u8,
        ((x >> 16) & 0xff) as u8,
        ((x >> 8) & 0xff) as u8,
        (x & 0xff) as u8,
    ]
}

/// Reassembling the eight big-endian bytes of `x` yields `x`.
pub open spec fn u64_from_be(b: Seq<u8>) -> u64
    recommends
        b.len() == 8,
{
    ((b[0] as u64) << 56) | ((b[1] as u64) << 48) | ((b[2] as u64) << 40)
        | ((b[3] as u64) << 32) | ((b[4] as u64) << 24) | ((b[5] as u64) << 16)
        | ((b[6] as u64) << 8) | (b[7] as u64)
}

pub proof fn lemma_u64_be_round_trip(x: u64)
    ensures
        u64_from_be(u64_be(x)) == x,
{
    let b = u64_be(x);
    assert(((((x >> 56) & 0xff) as u8) as u64) << 56
        | ((((x >> 48) & 0xff) as u8) as u64) << 48
        | ((((x >> 40) & 0xff) as u8) as u64) << 40
        | ((((x >> 32) & 0xff) as u8) as u64) << 32
        | ((((x >> 24) & 0xff) as u8) as u64) << 24
        | ((((x >> 16) & 0xff) as u8) as u64) << 16
        | ((((x >> 8) & 0xff) as u8) as u64) << 8
        | (((x & 0xff) as u8) as u64) == x) by (bit_vector);
}

/// Appends every byte of `src` to `dst`.
pub fn append(dst: &mut Vec<u8>, src: &Vec<u8>)
    ensures
        final(dst)@ == old(dst)@ + src@,
{
    let mut i: usize = 0;
    while i < src.len()
        invariant
            i <= src.len(),
            dst@ == old(dst)@ + src@.subrange(0, i as int),
        decreases src.len() - i,
    {
        dst.push(src[i]);
        assert(dst@ == old(dst)@ + src@.subrange(0, i + 1 as int));
        i = i + 1;
    }
    assert(src@.subrange(0, src@.len() as int) == src@);
}

/// Appends the big-endian image of `x` to `dst`.
pub fn append_u64_be(dst: &mut Vec<u8>, x: u64)
    ensures
        final(dst)@ == old(dst)@ + u64_be(x),
{
    dst.push(((x >> 56) & 0xff) as u8);
    dst.push(((x >> 48) & 0xff) as u8);
    dst.push(((x >> 40) & 0xff) as u8);
    dst.push(((x >> 32) & 0xff) as u8);
    dst.push(((x >> 24) & 0xff) as u8);
    dst.push(((x >> 16) & 0xff) as u8);
    dst.push(((x >> 8) & 0xff) as u8);
    dst.push((x & 0xff) as u8);
    assert(dst@ =~= old(dst)@ + u64_be(x));
}

/// A fresh copy of `src`, byte for byte.
pub fn copy_bytes(src: &Vec<u8>) -> (r: Vec<u8>)
    ensures
        r@ == src@,
{
    let mut out: Vec<u8> = Vec::new();
    append(&mut out, src);
    assert(out@ =~= src@);
    out
}

/// Byte-for-byte equality of two vectors.
pub fn bytes_eq(a: &Vec<u8>, b: &Vec<u8>) -> (r: bool)
    ensures
        r <==> a@ == b@,
{
    if a.len() != b.len() {
        assert(a@ != b@);
        return false;
    }
    let mut i: usize = 0;
    while i < a.len()
        invariant
            i <= a.len(),
            a@.len() == b@.len(),
            forall|j: int| 0 <= j < i ==> a@[j] == b@[j],
        decreases a.len() - i,
    {
        if a[i] != b[i] {
            return false;
        }
        i = i + 1;
    }
    assert(a@ =~= b@);
    true
}

/// Whether `p` is a prefix of `k`, as `is_prefix` states it.
pub fn starts_with(k: &Vec<u8>, p: &Vec<u8>) -> (r: bool)
    ensures
        r <==> is_prefix(p@, k@),
{
    if p.len() > k.len() {
        return false;
    }
    let mut i: usize = 0;
    while i < p.len()
        invariant
            i <= p.len(),
            p@.len() <= k@.len(),
            forall|j: int| 0 <= j < i ==> k@[j] == p@[j],
        decreases p.len() - i,
    {
        if k[i] != p[i] {
            assert(k@.subrange(0, p@.len() as int)[i as int] != p@[i as int]);
            return false;
        }
        i = i + 1;
    }
    assert(k@.subrange(0, p@.len() as int) =~= p@);
    true
}

} // verus!
