//! Big-endian byte conversions of fixed-width integers.

use vstd::prelude::*;

verus! {

/// Big-endian bytes of a 128-bit value.
pub open spec fn be_bytes_u128(v: u128) -> Seq<u8> {
    Seq::new(16, |i: int| (v >> (8 * (15 - i)) as u128) as u8)
}

/// Big-endian bytes of a 64-bit value.
pub open spec fn be_bytes_u64(v: u64) -> Seq<u8> {
    Seq::new(8, |i: int| (v >> (8 * (7 - i)) as u64) as u8)
}

/// Big-endian bytes of a 32-bit value.
pub open spec fn be_bytes_u32(v: u32) -> Seq<u8> {
    Seq::new(4, |i: int| (v >> (8 * (3 - i)) as u32) as u8)
}

/// The 128-bit value whose big-endian bytes are `b` (16 bytes).
pub open spec fn u128_from_be(b: Seq<u8>) -> u128 {
    ((b[0] as u128) << 120u128) | ((b[1] as u128) << 112u128) | ((b[2] as u128) << 104u128) | ((b[3] as u128) << 96u128) | ((b[4] as u128) << 88u128) | ((b[5] as u128) << 80u128) | ((b[6] as u128) << 72u128) | ((b[7] as u128) << 64u128) | ((b[8] as u128) << 56u128) | ((b[9] as u128) << 48u128) | ((b[10] as u128) << 40u128) | ((b[11] as u128) << 32u128) | ((b[12] as u128) << 24u128) | ((b[13] as u128) << 16u128) | ((b[14] as u128) << 8u128) | ((b[15] as u128) << 0u128)
}

/// The 64-bit value whose big-endian bytes are `b` (8 bytes).
pub open spec fn u64_from_be(b: Seq<u8>) -> u64 {
    ((b[0] as u64) << 56u64) | ((b[1] as u64) << 48u64) | ((b[2] as u64) << 40u64) | ((b[3] as u64) << 32u64) | ((b[4] as u64) << 24u64) | ((b[5] as u64) << 16u64) | ((b[6] as u64) << 8u64) | ((b[7] as u64) << 0u64)
}

/// The 32-bit value whose big-endian bytes are `b` (4 bytes).
pub open spec fn u32_from_be(b: Seq<u8>) -> u32 {
    ((b[0] as u32) << 24u32) | ((b[1] as u32) << 16u32) | ((b[2] as u32) << 8u32) | ((b[3] as u32) << 0u32)
}

/// Big-endian bytes of a u128.
pub fn u128_to_be_bytes(v: u128) -> (r: [u8; 16])
    ensures
        r@ == be_bytes_u128(v),
{
    let r = [
        (v >> 120u128) as u8,
        (v >> 112u128) as u8,
        (v >> 104u128) as u8,
        (v >> 96u128) as u8,
        (v >> 88u128) as u8,
        (v >> 80u128) as u8,
        (v >> 72u128) as u8,
        (v >> 64u128) as u8,
        (v >> 56u128) as u8,
        (v >> 48u128) as u8,
        (v >> 40u128) as u8,
        (v >> 32u128) as u8,
        (v >> 24u128) as u8,
        (v >> 16u128) as u8,
        (v >> 8u128) as u8,
        (v >> 0u128) as u8,
    ];
    assert(r@ =~= be_bytes_u128(v));
    r
}

/// Big-endian bytes of a u64.
pub fn u64_to_be_bytes(v: u64) -> (r: [u8; 8])
    ensures
        r@ == be_bytes_u64(v),
{
    let r = [
        (v >> 56u64) as u8,
        (v >> 48u64) as u8,
        (v >> 40u64) as u8,
        (v >> 32u64) as u8,
        (v >> 24u64) as u8,
        (v >> 16u64) as u8,
        (v >> 8u64) as u8,
        (v >> 0u64) as u8,
    ];
    assert(r@ =~= be_bytes_u64(v));
    r
}

/// Big-endian bytes of a u32.
pub fn u32_to_be_bytes(v: u32) -> (r: [u8; 4])
    ensures
        r@ == be_bytes_u32(v),
{
    let r = [
        (v >> 24u32) as u8,
        (v >> 16u32) as u8,
        (v >> 8u32) as u8,
        (v >> 0u32) as u8,
    ];
    assert(r@ =~= be_bytes_u32(v));
    r
}

/// The u128 whose big-endian bytes are `b[start..start + 16]`.
pub fn u128_from_be_slice(b: &[u8], start: usize) -> (r: u128)
    requires
        start + 16 <= b.len(),
    ensures
        r == u128_from_be(b@.subrange(start as int, start + 16)),
{
    let r = ((b[start + 0] as u128) << 120u128) | ((b[start + 1] as u128) << 112u128) | ((b[start + 2] as u128) << 104u128) | ((b[start + 3] as u128) << 96u128) | ((b[start + 4] as u128) << 88u128) | ((b[start + 5] as u128) << 80u128) | ((b[start + 6] as u128) << 72u128) | ((b[start + 7] as u128) << 64u128) | ((b[start + 8] as u128) << 56u128) | ((b[start + 9] as u128) << 48u128) | ((b[start + 10] as u128) << 40u128) | ((b[start + 11] as u128) << 32u128) | ((b[start + 12] as u128) << 24u128) | ((b[start + 13] as u128) << 16u128) | ((b[start + 14] as u128) << 8u128) | ((b[start + 15] as u128) << 0u128);
    assert(b@.subrange(start as int, start + 16)[0] == b[start as int]);
    r
}

/// The u64 whose big-endian bytes are `b[start..start + 8]`.
pub fn u64_from_be_slice(b: &[u8], start: usize) -> (r: u64)
    requires
        start + 8 <= b.len(),
    ensures
        r == u64_from_be(b@.subrange(start as int, start + 8)),
{
    let r = ((b[start + 0] as u64) << 56u64) | ((b[start + 1] as u64) << 48u64) | ((b[start + 2] as u64) << 40u64) | ((b[start + 3] as u64) << 32u64) | ((b[start + 4] as u64) << 24u64) | ((b[start + 5] as u64) << 16u64) | ((b[start + 6] as u64) << 8u64) | ((b[start + 7] as u64) << 0u64);
    assert(b@.subrange(start as int, start + 8)[0] == b[start as int]);
    r
}

/// The u32 whose big-endian bytes are `b[start..start + 4]`.
pub fn u32_from_be_slice(b: &[u8], start: usize) -> (r: u32)
    requires
        start + 4 <= b.len(),
    ensures
        r == u32_from_be(b@.subrange(start as int, start + 4)),
{
    let r = ((b[start + 0] as u32) << 24u32) | ((b[start + 1] as u32) << 16u32) | ((b[start + 2] as u32) << 8u32) | ((b[start + 3] as u32) << 0u32);
    assert(b@.subrange(start as int, start + 4)[0] == b[start as int]);
    r
}

/// Reading back the big-endian bytes of a u128 gives the value.
pub proof fn lemma_u128_be_roundtrip(v: u128)
    ensures
        u128_from_be(be_bytes_u128(v)) == v,
{
    let b = be_bytes_u128(v);
    let b0 = b[0];
    let b1 = b[1];
    let b2 = b[2];
    let b3 = b[3];
    let b4 = b[4];
    let b5 = b[5];
    let b6 = b[6];
    let b7 = b[7];
    let b8 = b[8];
    let b9 = b[9];
    let b10 = b[10];
    let b11 = b[11];
    let b12 = b[12];
    let b13 = b[13];
    let b14 = b[14];
    let b15 = b[15];
    assert(((b0 as u128) << 120u128) | ((b1 as u128) << 112u128) | ((b2 as u128) << 104u128) | ((b3 as u128) << 96u128) | ((b4 as u128) << 88u128) | ((b5 as u128) << 80u128) | ((b6 as u128) << 72u128) | ((b7 as u128) << 64u128) | ((b8 as u128) << 56u128) | ((b9 as u128) << 48u128) | ((b10 as u128) << 40u128) | ((b11 as u128) << 32u128) | ((b12 as u128) << 24u128) | ((b13 as u128) << 16u128) | ((b14 as u128) << 8u128) | ((b15 as u128) << 0u128) == v) by (bit_vector)
        requires b0 == (v >> 120u128) as u8, b1 == (v >> 112u128) as u8, b2 == (v >> 104u128) as u8, b3 == (v >> 96u128) as u8, b4 == (v >> 88u128) as u8, b5 == (v >> 80u128) as u8, b6 == (v >> 72u128) as u8, b7 == (v >> 64u128) as u8, b8 == (v >> 56u128) as u8, b9 == (v >> 48u128) as u8, b10 == (v >> 40u128) as u8, b11 == (v >> 32u128) as u8, b12 == (v >> 24u128) as u8, b13 == (v >> 16u128) as u8, b14 == (v >> 8u128) as u8, b15 == (v >> 0u128) as u8;
}

/// Reading back the big-endian bytes of a u64 gives the value.
pub proof fn lemma_u64_be_roundtrip(v: u64)
    ensures
        u64_from_be(be_bytes_u64(v)) == v,
{
    let b = be_bytes_u64(v);
    let b0 = b[0];
    let b1 = b[1];
    let b2 = b[2];
    let b3 = b[3];
    let b4 = b[4];
    let b5 = b[5];
    let b6 = b[6];
    let b7 = b[7];
    assert(((b0 as u64) << 56u64) | ((b1 as u64) << 48u64) | ((b2 as u64) << 40u64) | ((b3 as u64) << 32u64) | ((b4 as u64) << 24u64) | ((b5 as u64) << 16u64) | ((b6 as u64) << 8u64) | ((b7 as u64) << 0u64) == v) by (bit_vector)
        requires b0 == (v >> 56u64) as u8, b1 == (v >> 48u64) as u8, b2 == (v >> 40u64) as u8, b3 == (v >> 32u64) as u8, b4 == (v >> 24u64) as u8, b5 == (v >> 16u64) as u8, b6 == (v >> 8u64) as u8, b7 == (v >> 0u64) as u8;
}

/// Reading back the big-endian bytes of a u32 gives the value.
pub proof fn lemma_u32_be_roundtrip(v: u32)
    ensures
        u32_from_be(be_bytes_u32(v)) == v,
{
    let b = be_bytes_u32(v);
    let b0 = b[0];
    let b1 = b[1];
    let b2 = b[2];
    let b3 = b[3];
    assert(((b0 as u32) << 24u32) | ((b1 as u32) << 16u32) | ((b2 as u32) << 8u32) | ((b3 as u32) << 0u32) == v) by (bit_vector)
        requires b0 == (v >> 24u32) as u8, b1 == (v >> 16u32) as u8, b2 == (v >> 8u32) as u8, b3 == (v >> 0u32) as u8;
}

/// A fresh vector holding the same bytes.
pub fn copy_bytes(src: &[u8]) -> (r: Vec<u8>)
    ensures
        r@ == src@,
{
    let mut out: Vec<u8> = Vec::with_capacity(src.len());
    let mut i: usize = 0;
    while i < src.len()
        invariant
            i <= src.len(),
            out@ == src@.subrange(0, i as int),
        decreases src.len() - i,
    {
        out.push(src[i]);
        i = i + 1;
        assert(out@ =~= src@.subrange(0, i as int));
    }
    assert(src@.subrange(0, src.len() as int) =~= src@);
    out
}

/// Appends all of `src` to `dst`.
pub fn extend_bytes(dst: &mut Vec<u8>, src: &[u8])
    ensures
        final(dst)@ == old(dst)@ + src@,
{
    let ghost start = dst@;
    let mut i: usize = 0;
    while i < src.len()
        invariant
            i <= src.len(),
            dst@ == start + src@.subrange(0, i as int),
        decreases src.len() - i,
    {
        dst.push(src[i]);
        i = i + 1;
        assert(dst@ =~= start + src@.subrange(0, i as int));
    }
    assert(src@.subrange(0, src.len() as int) =~= src@);
}

} // verus!
