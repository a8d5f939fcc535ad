//! Morton encoding and decoding of many points at once.

use vstd::prelude::*;
use crate::morton::{deinterleave, lemma_morton_roundtrip, morton_decode, morton_encode, morton_spec};

verus! {

/// Morton codes of a sequence of points.
pub open spec fn morton_codes(coords: Seq<(u16, u16, u16)>) -> Seq<u64> {
    coords.map_values(|c: (u16, u16, u16)| morton_spec(c.0 as nat, c.1 as nat, c.2 as nat, 16) as u64)
}

/// Points decoded from a sequence of Morton codes.
pub open spec fn morton_points(codes: Seq<u64>) -> Seq<(u16, u16, u16)> {
    codes.map_values(
        |m: u64|
            (
                deinterleave(m as nat, 16).0 as u16,
                deinterleave(m as nat, 16).1 as u16,
                deinterleave(m as nat, 16).2 as u16,
            ),
    )
}

/// Decoding a batch of encoded points gives the points back.
pub proof fn lemma_batch_morton_roundtrip(coords: Seq<(u16, u16, u16)>)
    ensures
        morton_points(morton_codes(coords)) == coords,
{
    assert forall|i: int| 0 <= i < coords.len() implies #[trigger] morton_points(morton_codes(coords))[i]
        == coords[i] by {
        let c = coords[i];
        lemma_morton_roundtrip(c.0, c.1, c.2);
        crate::morton::lemma_morton_bound(c.0 as nat, c.1 as nat, c.2 as nat, 16);
        crate::morton::lemma_two_pow_16();
    }
    assert(morton_points(morton_codes(coords)) =~= coords);
}

/// Morton codes of a batch of points, in order.
pub fn batch_morton_encode(coords: &[(u16, u16, u16)]) -> (r: Vec<u64>)
    ensures
        r@ == morton_codes(coords@),
{
    let mut results: Vec<u64> = Vec::with_capacity(coords.len());
    let mut i: usize = 0;
    while i < coords.len()
        invariant
            i <= coords.len(),
            results@ == morton_codes(coords@.subrange(0, i as int)),
        decreases coords.len() - i,
    {
        let (x, y, z) = coords[i];
        results.push(morton_encode(x, y, z));
        assert(results@ =~= morton_codes(coords@.subrange(0, i + 1)));
        i = i + 1;
    }
    assert(coords@.subrange(0, coords.len() as int) =~= coords@);
    results
}

/// Points of a batch of Morton codes (low 48 bits of each), in order.
pub fn batch_morton_decode(codes: &[u64]) -> (r: Vec<(u16, u16, u16)>)
    ensures
        r@ == morton_points(codes@),
{
    let mut results: Vec<(u16, u16, u16)> = Vec::with_capacity(codes.len());
    let mut i: usize = 0;
    while i < codes.len()
        invariant
            i <= codes.len(),
            results@ == morton_points(codes@.subrange(0, i as int)),
        decreases codes.len() - i,
    {
        let p = morton_decode(codes[i]);
        results.push(p);
        assert(results@ =~= morton_points(codes@.subrange(0, i + 1)));
        i = i + 1;
    }
    assert(codes@.subrange(0, codes.len() as int) =~= codes@);
    results
}

} // verus!
