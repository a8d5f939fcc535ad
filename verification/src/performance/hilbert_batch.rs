//! Hilbert encoding and decoding of many points at once.

use vstd::prelude::*;
use crate::hilbert::{hilbert3d_decode, hilbert3d_encode, hilbert_deinterleave, hilbert_spec, lemma_hilbert_roundtrip};

verus! {

/// Hilbert codes of a sequence of points.
pub open spec fn hilbert_codes(coords: Seq<(u16, u16, u16)>) -> Seq<u64> {
    coords.map_values(|c: (u16, u16, u16)| hilbert_spec(c.0 as nat, c.1 as nat, c.2 as nat, 16) as u64)
}

/// Points decoded from a sequence of Hilbert codes.
pub open spec fn hilbert_points(codes: Seq<u64>) -> Seq<(u16, u16, u16)> {
    codes.map_values(
        |m: u64|
            (
                hilbert_deinterleave(m as nat, 16).0 as u16,
                hilbert_deinterleave(m as nat, 16).1 as u16,
                hilbert_deinterleave(m as nat, 16).2 as u16,
            ),
    )
}

/// Decoding a batch of encoded points gives the points back.
pub proof fn lemma_batch_hilbert_roundtrip(coords: Seq<(u16, u16, u16)>)
    ensures
        hilbert_points(hilbert_codes(coords)) == coords,
{
    assert forall|i: int| 0 <= i < coords.len() implies #[trigger] hilbert_points(hilbert_codes(coords))[i]
        == coords[i] by {
        let c = coords[i];
        lemma_hilbert_roundtrip(c.0, c.1, c.2);
        crate::hilbert::lemma_hilbert_bound(c.0 as nat, c.1 as nat, c.2 as nat, 16);
        crate::morton::lemma_two_pow_16();
    }
    assert(hilbert_points(hilbert_codes(coords)) =~= coords);
}

/// Hilbert codes of a batch of points, in order.
pub fn batch_hilbert_encode(coords: &[(u16, u16, u16)]) -> (r: Vec<u64>)
    ensures
        r@ == hilbert_codes(coords@),
{
    let mut results: Vec<u64> = Vec::with_capacity(coords.len());
    let mut i: usize = 0;
    while i < coords.len()
        invariant
            i <= coords.len(),
            results@ == hilbert_codes(coords@.subrange(0, i as int)),
        decreases coords.len() - i,
    {
        let (x, y, z) = coords[i];
        results.push(hilbert3d_encode(x, y, z));
        assert(results@ =~= hilbert_codes(coords@.subrange(0, i + 1)));
        i = i + 1;
    }
    assert(coords@.subrange(0, coords.len() as int) =~= coords@);
    results
}

/// Points of a batch of Hilbert codes (low 48 bits of each), in order.
pub fn batch_hilbert_decode(codes: &[u64]) -> (r: Vec<(u16, u16, u16)>)
    ensures
        r@ == hilbert_points(codes@),
{
    let mut results: Vec<(u16, u16, u16)> = Vec::with_capacity(codes.len());
    let mut i: usize = 0;
    while i < codes.len()
        invariant
            i <= codes.len(),
            results@ == hilbert_points(codes@.subrange(0, i as int)),
        decreases codes.len() - i,
    {
        let p = hilbert3d_decode(codes[i]);
        results.push(p);
        assert(results@ =~= hilbert_points(codes@.subrange(0, i + 1)));
        i = i + 1;
    }
    assert(codes@.subrange(0, codes.len() as int) =~= codes@);
    results
}

} // verus!
