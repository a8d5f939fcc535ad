//! Snapping integer voxel coordinates onto the BCC lattice.

use vstd::prelude::*;
use crate::lattice::{fits_i32, is_bcc, is_even};

verus! {

/// Squared distance between two integer points.
pub open spec fn dist2(p: (int, int, int), q: (int, int, int)) -> int {
    (p.0 - q.0) * (p.0 - q.0) + (p.1 - q.1) * (p.1 - q.1) + (p.2 - q.2) * (p.2 - q.2)
}

/// `v` rounded down to even (what `v & !1` computes).
pub open spec fn even_down(v: int) -> int {
    v - v % 2
}

/// `v` rounded up to even (what `(v + 1) & !1` computes).
pub open spec fn even_up(v: int) -> int {
    even_down(v + 1)
}

/// The odd number `v | 1`.
pub open spec fn odd_up(v: int) -> int {
    even_down(v) + 1
}

/// The odd number `(v - 1) | 1`.
pub open spec fn odd_down(v: int) -> int {
    even_down(v - 1) + 1
}

/// All-even candidate `k` (0 <= k < 8): bit 0, 1, 2 of `k` round x, y, z up.
pub open spec fn even_candidate(p: (int, int, int), k: int) -> (int, int, int) {
    (
        if k % 2 == 1 { even_up(p.0) } else { even_down(p.0) },
        if (k / 2) % 2 == 1 { even_up(p.1) } else { even_down(p.1) },
        if (k / 4) % 2 == 1 { even_up(p.2) } else { even_down(p.2) },
    )
}

/// All-odd candidate `k` (0 <= k < 8): bit 0, 1, 2 of `k` round x, y, z down.
pub open spec fn odd_candidate(p: (int, int, int), k: int) -> (int, int, int) {
    (
        if k % 2 == 1 { odd_down(p.0) } else { odd_up(p.0) },
        if (k / 2) % 2 == 1 { odd_down(p.1) } else { odd_up(p.1) },
        if (k / 4) % 2 == 1 { odd_down(p.2) } else { odd_up(p.2) },
    )
}

/// Index of the first candidate among the first `n` with the smallest distance to `p`.
pub open spec fn nearest_index(cands: Seq<(int, int, int)>, p: (int, int, int), n: int) -> int
    decreases n,
{
    if n <= 1 {
        0
    } else {
        let b = nearest_index(cands, p, n - 1);
        if dist2(p, cands[n - 1]) < dist2(p, cands[b]) { n - 1 } else { b }
    }
}

/// The eight all-even candidates.
pub open spec fn even_candidates(p: (int, int, int)) -> Seq<(int, int, int)> {
    Seq::new(8, |k: int| even_candidate(p, k))
}

/// The eight all-odd candidates.
pub open spec fn odd_candidates(p: (int, int, int)) -> Seq<(int, int, int)> {
    Seq::new(8, |k: int| odd_candidate(p, k))
}

/// The point that [`snap_to_nearest_bcc`] returns: the point itself when it
/// is on the lattice, else the first nearest all-even candidate, or the first
/// nearest all-odd candidate when that is strictly nearer.
pub open spec fn snap_spec(p: (int, int, int)) -> (int, int, int) {
    if is_bcc(p.0, p.1, p.2) {
        p
    } else {
        let e = even_candidates(p)[nearest_index(even_candidates(p), p, 8)];
        let o = odd_candidates(p)[nearest_index(odd_candidates(p), p, 8)];
        if dist2(p, e) <= dist2(p, o) { e } else { o }
    }
}

proof fn lemma_nearest_is_min(cands: Seq<(int, int, int)>, p: (int, int, int), n: int)
    requires
        1 <= n <= cands.len(),
    ensures
        0 <= nearest_index(cands, p, n) < n,
        forall|j: int| 0 <= j < n ==> dist2(p, cands[nearest_index(cands, p, n)]) <= dist2(p, #[trigger] cands[j]),
    decreases n,
{
    if n > 1 {
        lemma_nearest_is_min(cands, p, n - 1);
    }
}

proof fn lemma_square_ge_one(d: int)
    requires
        d != 0,
    ensures
        d * d >= 1,
{
    assert(d * d >= 1) by (nonlinear_arith)
        requires d != 0;
}

proof fn lemma_axis_even(a: int, e: int)
    requires
        is_even(e),
    ensures
        (a - e) * (a - e) >= (a - even_down(a)) * (a - even_down(a)),
        (a - even_down(a)) * (a - even_down(a)) == a % 2,
{
    let r = a % 2;
    assert(a - even_down(a) == r);
    if r == 1 {
        assert(a - e != 0);
        lemma_square_ge_one(a - e);
        assert(r * r == 1);
    } else {
        assert(r == 0);
        assert(r * r == 0);
        assert((a - e) * (a - e) >= 0) by (nonlinear_arith);
    }
}

proof fn lemma_axis_odd(a: int, o: int)
    requires
        !is_even(o),
    ensures
        (a - o) * (a - o) >= (a - odd_up(a)) * (a - odd_up(a)),
        (a - odd_up(a)) * (a - odd_up(a)) == 1 - a % 2,
{
    let r = a % 2;
    assert(a - odd_up(a) == r - 1);
    if r == 0 {
        assert(a - o != 0);
        lemma_square_ge_one(a - o);
        assert((r - 1) * (r - 1) == 1);
    } else {
        assert(r == 1);
        assert((r - 1) * (r - 1) == 0);
        assert((a - o) * (a - o) >= 0) by (nonlinear_arith);
    }
}

/// Snapping gives a lattice point, and no lattice point is nearer to the input.
pub proof fn lemma_snap_nearest(p: (int, int, int), q: (int, int, int))
    requires
        is_bcc(q.0, q.1, q.2),
    ensures
        is_bcc(snap_spec(p).0, snap_spec(p).1, snap_spec(p).2),
        dist2(p, snap_spec(p)) <= dist2(p, q),
{
    if is_bcc(p.0, p.1, p.2) {
        assert(dist2(p, p) == 0);
        assert(dist2(p, q) >= 0) by (nonlinear_arith);
    } else {
        let ec = even_candidates(p);
        let oc = odd_candidates(p);
        lemma_nearest_is_min(ec, p, 8);
        lemma_nearest_is_min(oc, p, 8);
        let ie = nearest_index(ec, p, 8);
        let io = nearest_index(oc, p, 8);
        assert(is_bcc(ec[ie].0, ec[ie].1, ec[ie].2));
        assert(is_bcc(oc[io].0, oc[io].1, oc[io].2));
        // the candidate rounding every axis down to even, and every axis up to odd
        let e0 = ec[0];
        let o0 = oc[0];
        if is_even(q.0) {
            lemma_axis_even(p.0, q.0);
            lemma_axis_even(p.1, q.1);
            lemma_axis_even(p.2, q.2);
            assert(dist2(p, e0) <= dist2(p, q));
        } else {
            lemma_axis_odd(p.0, q.0);
            lemma_axis_odd(p.1, q.1);
            lemma_axis_odd(p.2, q.2);
            assert(dist2(p, o0) <= dist2(p, q));
        }
    }
}

/// Snapping moves an integer point by at most one lattice step: the squared
/// distance to the snapped point is at most 1.
pub proof fn lemma_snap_within_one(p: (int, int, int))
    ensures
        dist2(p, snap_spec(p)) <= 1,
{
    if is_bcc(p.0, p.1, p.2) {
        assert(dist2(p, p) == 0) by (nonlinear_arith);
    } else {
        let q = if is_even(p.0) == is_even(p.1) {
            (p.0, p.1, p.2 + 1)
        } else if is_even(p.0) == is_even(p.2) {
            (p.0, p.1 + 1, p.2)
        } else {
            (p.0 + 1, p.1, p.2)
        };
        assert(is_bcc(q.0, q.1, q.2));
        let (d0, d1, d2) = (p.0 - q.0, p.1 - q.1, p.2 - q.2);
        assert(d0 * d0 + d1 * d1 + d2 * d2 == 1) by (nonlinear_arith)
            requires
                (d0 == 0 && d1 == 0 && d2 == -1) || (d0 == 0 && d1 == -1 && d2 == 0) || (d0 == -1 && d1
                    == 0 && d2 == 0),
        {}
        lemma_snap_nearest(p, q);
    }
}

/// Squared distance between integer points (inputs at most 20000 apart per axis).
fn distance_squared(x1: i32, y1: i32, z1: i32, p2: (i32, i32, i32)) -> (r: i32)
    requires
        -20000 <= x1 - p2.0 <= 20000,
        -20000 <= y1 - p2.1 <= 20000,
        -20000 <= z1 - p2.2 <= 20000,
    ensures
        r == dist2((x1 as int, y1 as int, z1 as int), (p2.0 as int, p2.1 as int, p2.2 as int)),
{
    let dx = x1 - p2.0;
    let dy = y1 - p2.1;
    let dz = z1 - p2.2;
    assert(dx * dx <= 400000000 && dy * dy <= 400000000 && dz * dz <= 400000000) by (nonlinear_arith)
        requires -20000 <= dx <= 20000, -20000 <= dy <= 20000, -20000 <= dz <= 20000;
    assert(dx * dx >= 0 && dy * dy >= 0 && dz * dz >= 0) by (nonlinear_arith);
    dx * dx + dy * dy + dz * dz
}

/// Integer view of a candidate list.
pub open spec fn cands_int(c: Seq<(i32, i32, i32)>) -> Seq<(int, int, int)> {
    c.map_values(|t: (i32, i32, i32)| (t.0 as int, t.1 as int, t.2 as int))
}

/// The first nearest candidate to the point and its squared distance.
fn find_nearest(candidates: &[(i32, i32, i32)], x: i32, y: i32, z: i32) -> (r: ((i32, i32, i32), i32))
    requires
        candidates.len() >= 1,
        forall|k: int|
            0 <= k < candidates.len() ==> -20000 <= x - (#[trigger] candidates[k]).0 <= 20000 && -20000 <= y
                - candidates[k].1 <= 20000 && -20000 <= z - candidates[k].2 <= 20000,
    ensures
        ({
            let cs = cands_int(candidates@);
            let p = (x as int, y as int, z as int);
            let b = nearest_index(cs, p, candidates.len() as int);
            &&& (r.0.0 as int, r.0.1 as int, r.0.2 as int) == cs[b]
            &&& r.1 == dist2(p, cs[b])
        }),
{
    let ghost cs = cands_int(candidates@);
    let ghost p = (x as int, y as int, z as int);
    let mut best = candidates[0];
    let mut best_dist = distance_squared(x, y, z, best);
    let mut i: usize = 1;
    while i < candidates.len()
        invariant
            1 <= i <= candidates.len(),
            cs == cands_int(candidates@),
            p == (x as int, y as int, z as int),
            forall|k: int|
                0 <= k < candidates.len() ==> -20000 <= x - (#[trigger] candidates[k]).0 <= 20000 && -20000
                    <= y - candidates[k].1 <= 20000 && -20000 <= z - candidates[k].2 <= 20000,
            (best.0 as int, best.1 as int, best.2 as int) == cs[nearest_index(cs, p, i as int)],
            best_dist == dist2(p, cs[nearest_index(cs, p, i as int)]),
        decreases candidates.len() - i,
    {
        let candidate = candidates[i];
        let dist = distance_squared(x, y, z, candidate);
        if dist < best_dist {
            best_dist = dist;
            best = candidate;
        }
        i = i + 1;
    }
    (best, best_dist)
}

/// Snaps integer coordinates to the nearest BCC lattice point: coordinates
/// already on the lattice stay; otherwise the nearest of the all-even and
/// all-odd candidates is taken, preferring even on a tie.
pub fn snap_to_nearest_bcc(x: i32, y: i32, z: i32) -> (r: (i32, i32, i32))
    requires
        !is_bcc(x as int, y as int, z as int) ==> i32::MIN < x < i32::MAX && i32::MIN < y < i32::MAX
            && i32::MIN < z < i32::MAX,
    ensures
        (r.0 as int, r.1 as int, r.2 as int) == snap_spec((x as int, y as int, z as int)),
        is_bcc(r.0 as int, r.1 as int, r.2 as int),
{
    let x_even = x % 2 == 0;
    let y_even = y % 2 == 0;
    let z_even = z % 2 == 0;
    assert(x_even == is_even(x as int) && y_even == is_even(y as int) && z_even == is_even(z as int)) by {
        assert((x % 2 == 0) == ((x as int) % 2 == 0));
    }
    if x_even == y_even && y_even == z_even {
        return (x, y, z);
    }
    let ghost p = (x as int, y as int, z as int);
    proof {
        lemma_round_bits(x);
        lemma_round_bits(y);
        lemma_round_bits(z);
    }
    let (xd, xu, yd, yu, zd, zu) = (x & !1, (x + 1) & !1, y & !1, (y + 1) & !1, z & !1, (z + 1) & !1);
    let evens = [
        (xd, yd, zd),
        (xu, yd, zd),
        (xd, yu, zd),
        (xu, yu, zd),
        (xd, yd, zu),
        (xu, yd, zu),
        (xd, yu, zu),
        (xu, yu, zu),
    ];
    let (xo, xp, yo, yp, zo, zp) = (x | 1, (x - 1) | 1, y | 1, (y - 1) | 1, z | 1, (z - 1) | 1);
    let odds = [
        (xo, yo, zo),
        (xp, yo, zo),
        (xo, yp, zo),
        (xp, yp, zo),
        (xo, yo, zp),
        (xp, yo, zp),
        (xo, yp, zp),
        (xp, yp, zp),
    ];
    assert(cands_int(evens@) =~= even_candidates(p));
    assert(cands_int(odds@) =~= odd_candidates(p));
    let (best_even, best_even_dist) = find_nearest(&evens, x, y, z);
    let (best_odd, best_odd_dist) = find_nearest(&odds, x, y, z);
    proof {
        lemma_nearest_is_min(even_candidates(p), p, 8);
        lemma_nearest_is_min(odd_candidates(p), p, 8);
    }
    if best_even_dist <= best_odd_dist {
        best_even
    } else {
        best_odd
    }
}

proof fn lemma_round_bits(v: i32)
    requires
        i32::MIN < v < i32::MAX,
    ensures
        (v & !1i32) as int == even_down(v as int),
        (((v + 1) as i32) & !1i32) as int == even_up(v as int),
        (v | 1i32) as int == odd_up(v as int),
        (((v - 1) as i32) | 1i32) as int == odd_down(v as int),
{
    let b = v & 1i32;
    assert((v & !1i32) == v - b && (b == 0 || b == 1)) by (bit_vector)
        requires b == v & 1i32;
    assert(b == (v as int) % 2) by {
        assert(v == 2 * ((v & !1i32) as int / 2) + b) by (bit_vector)
            requires b == v & 1i32;
    }
    let w = (v + 1) as i32;
    let c = w & 1i32;
    assert((w & !1i32) == w - c && (c == 0 || c == 1) && c == 1 - b) by (bit_vector)
        requires c == w & 1i32, b == v & 1i32, w == v + 1, v < 0x7fff_ffff;
    assert((v | 1i32) == (v & !1i32) + 1) by (bit_vector);
    let u = (v - 1) as i32;
    assert((u | 1i32) == (u & !1i32) + 1 && (u & !1i32) == u - (1 - b)) by (bit_vector)
        requires u == v - 1, b == v & 1i32, v > -0x8000_0000;
}

/// Whether the coordinates form a BCC lattice point.
pub fn is_valid_bcc(x: i32, y: i32, z: i32) -> (r: bool)
    ensures
        r == is_bcc(x as int, y as int, z as int),
{
    let x_even = x % 2 == 0;
    let y_even = y % 2 == 0;
    let z_even = z % 2 == 0;
    assert((x % 2 == 0) == is_even(x as int) && (y % 2 == 0) == is_even(y as int) && (z % 2 == 0) == is_even(z as int));
    x_even == y_even && y_even == z_even
}

} // verus!
