//! Batch forms of identifier encoding, route validation, distances and box
//! queries, computed element by element.

use vstd::prelude::*;
use crate::error::{Error, Result};
use crate::ids::{idx_code, key_pack, route_x, route_y, route_z, FrameId, Index64, Route64};
use crate::lattice::{abs, i32_is_even, is_even};
use crate::morton::{deinterleave, morton_spec};
use crate::neighbors::manhattan_distance_route64;

verus! {

/// Tier and level of detail that an Index64 accepts.
pub open spec fn index_args_ok(tier: u8, lod: u8) -> bool {
    tier <= 3 && lod <= 15
}

/// The raw value of the Index64 built from these fields.
pub open spec fn encoded_index(frame: FrameId, tier: u8, lod: u8, c: (u16, u16, u16)) -> u64 {
    key_pack(2, tier, frame, lod, morton_spec(c.0 as nat, c.1 as nat, c.2 as nat, 16) as u64)
}

/// Batch encode Index64 values from parallel slices of fields.
///
/// Fails with `InvalidFormat` when the slices differ in length; otherwise
/// fails with the error of the first entry that `Index64::new` rejects.
pub fn batch_index64_encode(
    frame_ids: &[FrameId],
    tiers: &[u8],
    lods: &[u8],
    coords: &[(u16, u16, u16)],
) -> (r: Result<Vec<Index64>>)
    ensures
        !(frame_ids@.len() == tiers@.len() && tiers@.len() == lods@.len() && lods@.len()
            == coords@.len()) ==> r matches Err(Error::InvalidFormat(_)),
        frame_ids@.len() == tiers@.len() && tiers@.len() == lods@.len() && lods@.len()
            == coords@.len() ==> {
            &&& (forall|i: int| 0 <= i < tiers@.len() ==> index_args_ok(tiers@[i], lods@[i]))
                ==> (r matches Ok(v) && v@.len() == tiers@.len() && forall|i: int|
                0 <= i < v@.len() ==> #[trigger] v@[i]@ == encoded_index(
                    frame_ids@[i],
                    tiers@[i],
                    lods@[i],
                    coords@[i],
                ))
            &&& forall|i: int|
                0 <= i < tiers@.len() && !index_args_ok(#[trigger] tiers@[i], lods@[i]) && (forall|
                    j: int,
                | 0 <= j < i ==> index_args_ok(tiers@[j], lods@[j])) ==> (tiers@[i] > 3 ==> (r matches Err(
                    Error::InvalidScaleTier(_),
                ))) && (tiers@[i] <= 3 ==> (r matches Err(Error::InvalidLOD(_))))
        },
{
    if frame_ids.len() != tiers.len() || tiers.len() != lods.len() || lods.len() != coords.len() {
        return Err(Error::InvalidFormat("All input arrays must have the same length".to_owned()));
    }
    let len = frame_ids.len();
    let mut results: Vec<Index64> = Vec::with_capacity(len);
    let mut i: usize = 0;
    while i < len
        invariant
            len == frame_ids@.len(),
            len == tiers@.len(),
            len == lods@.len(),
            len == coords@.len(),
            i <= len,
            results@.len() == i,
            forall|j: int| 0 <= j < i ==> index_args_ok(tiers@[j], lods@[j]),
            forall|j: int|
                0 <= j < i ==> #[trigger] results@[j]@ == encoded_index(
                    frame_ids@[j],
                    tiers@[j],
                    lods@[j],
                    coords@[j],
                ),
        decreases len - i,
    {
        let c = coords[i];
        match Index64::new(frame_ids[i], tiers[i], lods[i], c.0, c.1, c.2) {
            Ok(k) => {
                results.push(k);
            },
            Err(e) => {
                proof {
                    assert(!index_args_ok(tiers@[i as int], lods@[i as int]));
                    assert forall|t: int|
                        0 <= t < tiers@.len() && !index_args_ok(tiers@[t], lods@[t]) && (forall|
                            j: int,
                        | 0 <= j < t ==> index_args_ok(tiers@[j], lods@[j])) implies t == i by {
                        if t < i {
                        } else if t > i {
                            assert(index_args_ok(tiers@[i as int], lods@[i as int]));
                        }
                    }
                }
                return Err(e);
            },
        }
        i = i + 1;
    }
    Ok(results)
}

/// Batch decode the 16-bit coordinates of Index64 values.
pub fn batch_index64_decode(indices: &[Index64]) -> (r: Vec<(u16, u16, u16)>)
    ensures
        r@.len() == indices@.len(),
        forall|i: int|
            0 <= i < r@.len() ==> (#[trigger] r@[i].0 as nat, r@[i].1 as nat, r@[i].2 as nat)
                == deinterleave(idx_code(indices@[i]@) as nat, 16),
{
    let mut results: Vec<(u16, u16, u16)> = Vec::with_capacity(indices.len());
    let mut i: usize = 0;
    while i < indices.len()
        invariant
            i <= indices@.len(),
            results@.len() == i,
            forall|j: int|
                0 <= j < i ==> (#[trigger] results@[j].0 as nat, results@[j].1 as nat, results@[j].2
                    as nat) == deinterleave(idx_code(indices@[j]@) as nat, 16),
        decreases indices@.len() - i,
    {
        results.push(indices[i].decode_coords());
        i = i + 1;
    }
    results
}

/// The coordinate sum of a route is even.
pub open spec fn route_sum_even(v: u64) -> bool {
    is_even(route_x(v) + route_y(v) + route_z(v))
}

/// Batch check that the coordinate sum of each route is even.
pub fn batch_validate_routes(routes: &[Route64]) -> (r: Vec<bool>)
    ensures
        r@.len() == routes@.len(),
        forall|i: int| 0 <= i < r@.len() ==> #[trigger] r@[i] == route_sum_even(routes@[i]@),
{
    let mut results: Vec<bool> = Vec::with_capacity(routes.len());
    let mut i: usize = 0;
    while i < routes.len()
        invariant
            i <= routes@.len(),
            results@.len() == i,
            forall|j: int| 0 <= j < i ==> #[trigger] results@[j] == route_sum_even(routes@[j]@),
        decreases routes@.len() - i,
    {
        let route = routes[i];
        let sum: i32 = route.x() + route.y() + route.z();
        results.push(i32_is_even(sum));
        i = i + 1;
    }
    results
}

/// Manhattan distance between the coordinates of two route values.
pub open spec fn route_manhattan(a: u64, b: u64) -> int {
    abs(route_x(a) - route_x(b)) + abs(route_y(a) - route_y(b)) + abs(route_z(a) - route_z(b))
}

/// Manhattan distance from `source` to each target.
pub fn batch_manhattan_distance(source: Route64, targets: &[Route64]) -> (r: Vec<i32>)
    ensures
        r@.len() == targets@.len(),
        forall|i: int| 0 <= i < r@.len() ==> #[trigger] r@[i] == route_manhattan(source@, targets@[i]@),
{
    let mut results: Vec<i32> = Vec::with_capacity(targets.len());
    let mut i: usize = 0;
    while i < targets.len()
        invariant
            i <= targets@.len(),
            results@.len() == i,
            forall|j: int|
                0 <= j < i ==> #[trigger] results@[j] == route_manhattan(source@, targets@[j]@),
        decreases targets@.len() - i,
    {
        results.push(manhattan_distance_route64(source, targets[i]));
        i = i + 1;
    }
    results
}

/// Squared Euclidean distance between the coordinates of two route values.
pub open spec fn route_dist_sq(a: u64, b: u64) -> int {
    let dx = route_x(a) - route_x(b);
    let dy = route_y(a) - route_y(b);
    let dz = route_z(a) - route_z(b);
    dx * dx + dy * dy + dz * dz
}

proof fn lemma_square_bound(d: int)
    by (nonlinear_arith)
    requires
        -0x10_0000 <= d <= 0x10_0000,
    ensures
        0 <= d * d <= 0x100_0000_0000,
{
}

/// Squared Euclidean distance from `source` to each target.
pub fn batch_euclidean_distance_squared(source: Route64, targets: &[Route64]) -> (r: Vec<i64>)
    ensures
        r@.len() == targets@.len(),
        forall|i: int| 0 <= i < r@.len() ==> #[trigger] r@[i] == route_dist_sq(source@, targets@[i]@),
{
    let sx = source.x() as i64;
    let sy = source.y() as i64;
    let sz = source.z() as i64;
    let mut results: Vec<i64> = Vec::with_capacity(targets.len());
    let mut i: usize = 0;
    while i < targets.len()
        invariant
            i <= targets@.len(),
            results@.len() == i,
            sx == route_x(source@),
            sy == route_y(source@),
            sz == route_z(source@),
            -524288 <= sx <= 524287,
            -524288 <= sy <= 524287,
            -524288 <= sz <= 524287,
            forall|j: int|
                0 <= j < i ==> #[trigger] results@[j] == route_dist_sq(source@, targets@[j]@),
        decreases targets@.len() - i,
    {
        let t = targets[i];
        let dx = sx - t.x() as i64;
        let dy = sy - t.y() as i64;
        let dz = sz - t.z() as i64;
        proof {
            lemma_square_bound(dx as int);
            lemma_square_bound(dy as int);
            lemma_square_bound(dz as int);
        }
        results.push(dx * dx + dy * dy + dz * dz);
        i = i + 1;
    }
    results
}

/// The route value lies in the closed box.
pub open spec fn in_box(v: u64, min_x: i32, max_x: i32, min_y: i32, max_y: i32, min_z: i32, max_z: i32) -> bool {
    &&& min_x <= route_x(v) <= max_x
    &&& min_y <= route_y(v) <= max_y
    &&& min_z <= route_z(v) <= max_z
}

/// Positions, in increasing order, of the first `n` routes that lie in the box.
pub open spec fn box_hits(
    routes: Seq<Route64>,
    n: int,
    min_x: i32,
    max_x: i32,
    min_y: i32,
    max_y: i32,
    min_z: i32,
    max_z: i32,
) -> Seq<usize>
    decreases n,
{
    if n <= 0 {
        Seq::empty()
    } else {
        let before = box_hits(routes, n - 1, min_x, max_x, min_y, max_y, min_z, max_z);
        if in_box(routes[n - 1]@, min_x, max_x, min_y, max_y, min_z, max_z) {
            before.push((n - 1) as usize)
        } else {
            before
        }
    }
}

/// Positions of the routes inside the closed box, in increasing order.
pub fn batch_bounding_box_query(
    routes: &[Route64],
    min_x: i32,
    max_x: i32,
    min_y: i32,
    max_y: i32,
    min_z: i32,
    max_z: i32,
) -> (r: Vec<usize>)
    ensures
        r@ == box_hits(routes@, routes@.len() as int, min_x, max_x, min_y, max_y, min_z, max_z),
{
    let mut results: Vec<usize> = Vec::new();
    let mut i: usize = 0;
    while i < routes.len()
        invariant
            i <= routes@.len(),
            results@ == box_hits(routes@, i as int, min_x, max_x, min_y, max_y, min_z, max_z),
        decreases routes@.len() - i,
    {
        let route = routes[i];
        let x = route.x();
        let y = route.y();
        let z = route.z();
        if x >= min_x && x <= max_x && y >= min_y && y <= max_y && z >= min_z && z <= max_z {
            results.push(i);
        }
        i = i + 1;
    }
    results
}

/// Every position reported by a box query names a route inside the box, and
/// the positions increase.
pub proof fn lemma_box_hits_sound(
    routes: Seq<Route64>,
    n: int,
    min_x: i32,
    max_x: i32,
    min_y: i32,
    max_y: i32,
    min_z: i32,
    max_z: i32,
)
    requires
        0 <= n <= routes.len(),
        n <= usize::MAX,
    ensures
        ({
            let h = box_hits(routes, n, min_x, max_x, min_y, max_y, min_z, max_z);
            &&& forall|k: int|
                0 <= k < h.len() ==> #[trigger] h[k] < n && in_box(
                    routes[h[k] as int]@,
                    min_x,
                    max_x,
                    min_y,
                    max_y,
                    min_z,
                    max_z,
                )
            &&& forall|k: int, l: int| 0 <= k < l < h.len() ==> h[k] < h[l]
            &&& forall|p: int|
                0 <= p < n && in_box(routes[p]@, min_x, max_x, min_y, max_y, min_z, max_z)
                    ==> h.contains(p as usize)
        }),
    decreases n,
{
    if n > 0 {
        lemma_box_hits_sound(routes, n - 1, min_x, max_x, min_y, max_y, min_z, max_z);
        let before = box_hits(routes, n - 1, min_x, max_x, min_y, max_y, min_z, max_z);
        let h = box_hits(routes, n, min_x, max_x, min_y, max_y, min_z, max_z);
        assert forall|p: int|
            0 <= p < n && in_box(routes[p]@, min_x, max_x, min_y, max_y, min_z, max_z) implies h.contains(
            p as usize,
        ) by {
            if p < n - 1 {
                let k = choose|k: int| 0 <= k < before.len() && before[k] == p as usize;
                assert(h[k] == p as usize);
            } else {
                assert(h[h.len() - 1] == p as usize);
            }
        }
    }
}

} // verus!
