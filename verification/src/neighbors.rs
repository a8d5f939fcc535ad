//! Neighbour operations on the packed identifier types.

use vstd::prelude::*;
use crate::ids::{lemma_gal_bounds, lemma_gal_fields, lemma_route_fields, idx_header, Index64, gal_attr_usr, gal_frame, gal_lod, gal_pack, gal_scale_mant, gal_scale_tier, gal_x, gal_y, gal_z, idx_tier, in_route_range, route_pack, route_x, route_y, route_z, Galactic128, Route64};
use crate::lattice::{abs, fits_i32, is_bcc, neighbor_offset, BCC_NEIGHBORS_14};

verus! {

/// Neighbour `i` of a Route64 lies inside the 20-bit range and on the lattice.
pub open spec fn route_neighbor_ok(v: u64, i: int) -> bool {
    let (dx, dy, dz) = neighbor_offset(i);
    &&& is_bcc(route_x(v) + dx, route_y(v) + dy, route_z(v) + dz)
    &&& in_route_range(route_x(v) + dx)
    &&& in_route_range(route_y(v) + dy)
    &&& in_route_range(route_z(v) + dz)
}

/// Raw value of neighbour `i` of a Route64.
pub open spec fn route_neighbor(v: u64, i: int) -> u64 {
    let (dx, dy, dz) = neighbor_offset(i);
    route_pack(idx_tier(v), (route_x(v) + dx) as i32, (route_y(v) + dy) as i32, (route_z(v) + dz) as i32)
}

/// Raw values of the valid neighbours among the first `n` offsets, in order.
pub open spec fn route_neighbors_upto(v: u64, n: int) -> Seq<u64>
    decreases n,
{
    if n <= 0 {
        Seq::empty()
    } else if route_neighbor_ok(v, n - 1) {
        route_neighbors_upto(v, n - 1).push(route_neighbor(v, n - 1))
    } else {
        route_neighbors_upto(v, n - 1)
    }
}

/// Raw values of the valid neighbours of a Route64, in offset order.
pub open spec fn route_neighbors_spec(v: u64) -> Seq<u64> {
    route_neighbors_upto(v, 14)
}

/// Raw values of a sequence of routes.
pub open spec fn route_values(s: Seq<Route64>) -> Seq<u64> {
    s.map_values(|r: Route64| r@)
}

/// The 14 neighbours of a Route64 that stay inside the 20-bit range and on the lattice.
pub fn neighbors_route64(route: Route64) -> (r: Vec<Route64>)
    ensures
        route_values(r@) == route_neighbors_spec(route@),
        forall|k: int| 0 <= k < r@.len() ==> route_moved_by_one_of(route@, (#[trigger] r@[k])@, 14),
{
    let tier = route.scale_tier();
    let (x, y, z) = (route.x(), route.y(), route.z());
    let mut out: Vec<Route64> = Vec::new();
    let mut i: usize = 0;
    while i < 14
        invariant
            i <= 14,
            tier == idx_tier(route@),
            tier <= 3,
            x == route_x(route@),
            y == route_y(route@),
            z == route_z(route@),
            in_route_range(x as int),
            in_route_range(y as int),
            in_route_range(z as int),
            route_values(out@) == route_neighbors_upto(route@, i as int),
        decreases 14 - i,
    {
        let (dx, dy, dz) = BCC_NEIGHBORS_14[i];
        assert(dx == neighbor_offset(i as int).0 && dy == neighbor_offset(i as int).1
            && dz == neighbor_offset(i as int).2);
        let ghost before = out@;
        match Route64::new(tier, x + dx, y + dy, z + dz) {
            Ok(n) => {
                out.push(n);
                assert(route_values(out@) == route_values(before).push(n@));
            },
            Err(_) => {},
        }
        i = i + 1;
    }
    proof {
        lemma_route_neighbors_moved(route@);
        assert forall|k: int| 0 <= k < out@.len() implies route_moved_by_one_of(route@, (#[trigger] out@[k])@, 14) by {
            assert(route_values(out@)[k] == out@[k]@);
            assert(route_neighbors_spec(route@)[k] == out@[k]@);
        }
    }
    out
}

/// The route lies on the lattice, two steps away from the edges of the 20-bit range.
pub open spec fn route_interior(v: u64) -> bool {
    &&& is_bcc(route_x(v) as int, route_y(v) as int, route_z(v) as int)
    &&& -524286 <= route_x(v) <= 524285
    &&& -524286 <= route_y(v) <= 524285
    &&& -524286 <= route_z(v) <= 524285
}

/// A lattice route away from the range edges has all 14 neighbours, one per offset.
pub proof fn lemma_route_has_14_neighbors(v: u64)
    requires
        route_interior(v),
    ensures
        route_neighbors_spec(v).len() == 14,
        forall|i: int| 0 <= i < 14 ==> #[trigger] route_neighbors_spec(v)[i] == route_neighbor(v, i),
        forall|i: int| 0 <= i < 14 ==> route_moved_by(v, #[trigger] route_neighbors_spec(v)[i], i),
{
    lemma_route_neighbors_all_ok(v, 14);
    assert forall|i: int| 0 <= i < 14 implies route_moved_by(v, #[trigger] route_neighbors_spec(v)[i], i) by {
        lemma_route_neighbor_moved(v, i);
    }
}

/// `w` is the route `v` moved by neighbour offset `i`: a route of the same
/// scale tier, each coordinate shifted by the offset.
pub open spec fn route_moved_by(v: u64, w: u64, i: int) -> bool {
    &&& idx_header(w) == 1
    &&& idx_tier(w) == idx_tier(v)
    &&& route_x(w) == route_x(v) + neighbor_offset(i).0
    &&& route_y(w) == route_y(v) + neighbor_offset(i).1
    &&& route_z(w) == route_z(v) + neighbor_offset(i).2
}

/// `w` is the route `v` moved by one of the first `n` neighbour offsets.
pub open spec fn route_moved_by_one_of(v: u64, w: u64, n: int) -> bool {
    exists|i: int| 0 <= i < n && #[trigger] route_moved_by(v, w, i)
}

/// Neighbour `i` of a route, where it lies in range and on the lattice, is
/// the route moved by offset `i`.
pub proof fn lemma_route_neighbor_moved(v: u64, i: int)
    requires
        0 <= i < 14,
        route_neighbor_ok(v, i),
    ensures
        route_moved_by(v, route_neighbor(v, i), i),
{
    let (dx, dy, dz) = neighbor_offset(i);
    assert(((v >> 60u64) & 0x3) as u8 <= 3) by (bit_vector);
    lemma_route_fields(idx_tier(v), (route_x(v) + dx) as i32, (route_y(v) + dy) as i32, (route_z(v) + dz) as i32);
}

/// The neighbours that `neighbors_route64` lists are exactly the routes moved
/// by one of the 14 offsets that stay in range and on the lattice: each
/// listed route is the route moved by some offset, and each offset that
/// stays in range and on the lattice gives a listed route.
pub proof fn lemma_route_neighbors_moved(v: u64)
    ensures
        forall|k: int| 0 <= k < route_neighbors_spec(v).len() ==> route_moved_by_one_of(v, #[trigger] route_neighbors_spec(v)[k], 14),
        forall|i: int|
            0 <= i < 14 && #[trigger] route_neighbor_ok(v, i) ==> exists|k: int|
                0 <= k < route_neighbors_spec(v).len() && route_moved_by(v, route_neighbors_spec(v)[k], i),
{
    lemma_route_neighbors_moved_upto(v, 14);
    assert forall|i: int|
        0 <= i < 14 && #[trigger] route_neighbor_ok(v, i) implies exists|k: int|
            0 <= k < route_neighbors_spec(v).len() && route_moved_by(v, route_neighbors_spec(v)[k], i) by {
        lemma_route_neighbor_moved(v, i);
        let k = choose|k: int| 0 <= k < route_neighbors_spec(v).len() && route_neighbors_spec(v)[k] == route_neighbor(v, i);
        assert(route_moved_by(v, route_neighbors_spec(v)[k], i));
    }
}

proof fn lemma_route_neighbors_moved_upto(v: u64, n: int)
    requires
        0 <= n <= 14,
    ensures
        forall|k: int| 0 <= k < route_neighbors_upto(v, n).len() ==> route_moved_by_one_of(v, #[trigger] route_neighbors_upto(v, n)[k], n),
        forall|i: int|
            0 <= i < n && #[trigger] route_neighbor_ok(v, i) ==> exists|k: int|
                0 <= k < route_neighbors_upto(v, n).len() && route_neighbors_upto(v, n)[k] == route_neighbor(v, i),
    decreases n,
{
    if n == 0 {
        assert(route_neighbors_upto(v, 0) =~= Seq::<u64>::empty());
    } else {
        lemma_route_neighbors_moved_upto(v, n - 1);
        let prev = route_neighbors_upto(v, n - 1);
        let cur = route_neighbors_upto(v, n);
        if route_neighbor_ok(v, n - 1) {
            lemma_route_neighbor_moved(v, n - 1);
            assert(cur == prev.push(route_neighbor(v, n - 1)));
            assert forall|k: int| 0 <= k < cur.len() implies route_moved_by_one_of(v, #[trigger] cur[k], n) by {
                if k < prev.len() {
                    assert(cur[k] == prev[k]);
                    assert(route_moved_by_one_of(v, prev[k], n - 1));
                    let i = choose|i: int| 0 <= i < n - 1 && #[trigger] route_moved_by(v, prev[k], i);
                    assert(0 <= i < n && route_moved_by(v, cur[k], i));
                } else {
                    assert(route_moved_by(v, cur[k], n - 1));
                }
            }
            assert forall|i: int| 0 <= i < n && #[trigger] route_neighbor_ok(v, i) implies exists|k: int|
                0 <= k < cur.len() && cur[k] == route_neighbor(v, i) by {
                if i < n - 1 {
                    let k = choose|k: int| 0 <= k < prev.len() && prev[k] == route_neighbor(v, i);
                    assert(cur[k] == prev[k]);
                } else {
                    assert(cur[prev.len() as int] == route_neighbor(v, i));
                }
            }
        } else {
            assert(cur == prev);
            assert forall|k: int| 0 <= k < cur.len() implies route_moved_by_one_of(v, #[trigger] cur[k], n) by {
                assert(route_moved_by_one_of(v, prev[k], n - 1));
                let i = choose|i: int| 0 <= i < n - 1 && #[trigger] route_moved_by(v, prev[k], i);
                assert(0 <= i < n && route_moved_by(v, cur[k], i));
            }
        }
    }
}

proof fn lemma_route_neighbors_all_ok(v: u64, n: int)
    requires
        route_interior(v),
        0 <= n <= 14,
    ensures
        route_neighbors_upto(v, n).len() == n,
        forall|i: int| 0 <= i < n ==> #[trigger] route_neighbors_upto(v, n)[i] == route_neighbor(v, i),
    decreases n,
{
    if n > 0 {
        lemma_route_neighbors_all_ok(v, n - 1);
        assert(route_neighbor_ok(v, n - 1));
    }
}

/// Neighbour `i` of a Galactic128 does not overflow and lies on the lattice.
pub open spec fn gal_neighbor_ok(v: u128, i: int) -> bool {
    let (dx, dy, dz) = neighbor_offset(i);
    &&& fits_i32(gal_x(v) + dx) && fits_i32(gal_y(v) + dy) && fits_i32(gal_z(v) + dz)
    &&& is_bcc(gal_x(v) + dx, gal_y(v) + dy, gal_z(v) + dz)
}

/// Raw value of neighbour `i` of a Galactic128: same header fields, moved coordinates.
pub open spec fn gal_neighbor(v: u128, i: int) -> u128 {
    let (dx, dy, dz) = neighbor_offset(i);
    gal_pack(
        gal_frame(v),
        gal_scale_mant(v),
        gal_scale_tier(v),
        gal_lod(v),
        gal_attr_usr(v),
        (gal_x(v) + dx) as i32,
        (gal_y(v) + dy) as i32,
        (gal_z(v) + dz) as i32,
    )
}

/// Raw values of the valid neighbours among the first `n` offsets, in order.
pub open spec fn gal_neighbors_upto(v: u128, n: int) -> Seq<u128>
    decreases n,
{
    if n <= 0 {
        Seq::empty()
    } else if gal_neighbor_ok(v, n - 1) {
        gal_neighbors_upto(v, n - 1).push(gal_neighbor(v, n - 1))
    } else {
        gal_neighbors_upto(v, n - 1)
    }
}

/// A Galactic128 on the lattice, two or more steps inside the `i32` range on
/// every axis, has all 14 neighbours, one per offset in offset order, each with
/// the same frame, scale, level of detail and attributes.
pub proof fn lemma_gal_has_14_neighbors(v: u128)
    requires
        is_bcc(gal_x(v) as int, gal_y(v) as int, gal_z(v) as int),
        i32::MIN + 2 <= gal_x(v) <= i32::MAX - 2,
        i32::MIN + 2 <= gal_y(v) <= i32::MAX - 2,
        i32::MIN + 2 <= gal_z(v) <= i32::MAX - 2,
    ensures
        gal_neighbors_upto(v, 14).len() == 14,
        forall|i: int| 0 <= i < 14 ==> #[trigger] gal_neighbors_upto(v, 14)[i] == gal_neighbor(v, i),
{
    lemma_gal_neighbors_all(v, 14);
}

proof fn lemma_gal_neighbors_all(v: u128, n: int)
    requires
        is_bcc(gal_x(v) as int, gal_y(v) as int, gal_z(v) as int),
        i32::MIN + 2 <= gal_x(v) <= i32::MAX - 2,
        i32::MIN + 2 <= gal_y(v) <= i32::MAX - 2,
        i32::MIN + 2 <= gal_z(v) <= i32::MAX - 2,
        0 <= n <= 14,
    ensures
        gal_neighbors_upto(v, n).len() == n,
        forall|i: int| 0 <= i < n ==> #[trigger] gal_neighbors_upto(v, n)[i] == gal_neighbor(v, i),
    decreases n,
{
    if n > 0 {
        lemma_gal_neighbors_all(v, n - 1);
        assert(gal_neighbor_ok(v, n - 1));
    }
}

/// `w` is the Galactic128 `v` moved by neighbour offset `i`: the same frame,
/// scale, level of detail and user attributes, each coordinate shifted by the
/// offset.
pub open spec fn gal_moved_by(v: u128, w: u128, i: int) -> bool {
    &&& gal_frame(w) == gal_frame(v)
    &&& gal_scale_mant(w) == gal_scale_mant(v)
    &&& gal_scale_tier(w) == gal_scale_tier(v)
    &&& gal_lod(w) == gal_lod(v)
    &&& gal_attr_usr(w) == gal_attr_usr(v)
    &&& gal_x(w) == gal_x(v) + neighbor_offset(i).0
    &&& gal_y(w) == gal_y(v) + neighbor_offset(i).1
    &&& gal_z(w) == gal_z(v) + neighbor_offset(i).2
}

/// `w` is the Galactic128 `v` moved by one of the first `n` neighbour offsets.
pub open spec fn gal_moved_by_one_of(v: u128, w: u128, n: int) -> bool {
    exists|i: int| 0 <= i < n && #[trigger] gal_moved_by(v, w, i)
}

/// Neighbour `i` of a Galactic128, where it neither overflows nor leaves the
/// lattice, is the value moved by offset `i`.
pub proof fn lemma_gal_neighbor_moved(v: u128, i: int)
    requires
        0 <= i < 14,
        gal_neighbor_ok(v, i),
    ensures
        gal_moved_by(v, gal_neighbor(v, i), i),
{
    let (dx, dy, dz) = neighbor_offset(i);
    lemma_gal_bounds(v);
    let a = gal_attr_usr(v);
    assert(a & 0xF == a) by (bit_vector)
        requires a == ((v >> 96u128) & 0xF) as u8;
    lemma_gal_fields(
        gal_frame(v),
        gal_scale_mant(v),
        gal_scale_tier(v),
        gal_lod(v),
        gal_attr_usr(v),
        (gal_x(v) + dx) as i32,
        (gal_y(v) + dy) as i32,
        (gal_z(v) + dz) as i32,
    );
}

/// Every neighbour that `neighbors_galactic128` lists is the value moved by
/// one of the 14 offsets, and each offset that neither overflows nor leaves
/// the lattice gives a listed neighbour.
pub proof fn lemma_gal_neighbors_moved(v: u128)
    ensures
        forall|k: int| 0 <= k < gal_neighbors_upto(v, 14).len() ==> gal_moved_by_one_of(v, #[trigger] gal_neighbors_upto(v, 14)[k], 14),
        forall|i: int|
            0 <= i < 14 && #[trigger] gal_neighbor_ok(v, i) ==> exists|k: int|
                0 <= k < gal_neighbors_upto(v, 14).len() && gal_moved_by(v, gal_neighbors_upto(v, 14)[k], i),
{
    lemma_gal_neighbors_moved_upto(v, 14);
    assert forall|i: int|
        0 <= i < 14 && #[trigger] gal_neighbor_ok(v, i) implies exists|k: int|
            0 <= k < gal_neighbors_upto(v, 14).len() && gal_moved_by(v, gal_neighbors_upto(v, 14)[k], i) by {
        lemma_gal_neighbor_moved(v, i);
        let k = choose|k: int| 0 <= k < gal_neighbors_upto(v, 14).len() && gal_neighbors_upto(v, 14)[k] == gal_neighbor(v, i);
        assert(gal_moved_by(v, gal_neighbors_upto(v, 14)[k], i));
    }
}

proof fn lemma_gal_neighbors_moved_upto(v: u128, n: int)
    requires
        0 <= n <= 14,
    ensures
        forall|k: int| 0 <= k < gal_neighbors_upto(v, n).len() ==> gal_moved_by_one_of(v, #[trigger] gal_neighbors_upto(v, n)[k], n),
        forall|i: int|
            0 <= i < n && #[trigger] gal_neighbor_ok(v, i) ==> exists|k: int|
                0 <= k < gal_neighbors_upto(v, n).len() && gal_neighbors_upto(v, n)[k] == gal_neighbor(v, i),
    decreases n,
{
    if n == 0 {
        assert(gal_neighbors_upto(v, 0) =~= Seq::<u128>::empty());
    } else {
        lemma_gal_neighbors_moved_upto(v, n - 1);
        let prev = gal_neighbors_upto(v, n - 1);
        let cur = gal_neighbors_upto(v, n);
        if gal_neighbor_ok(v, n - 1) {
            lemma_gal_neighbor_moved(v, n - 1);
            assert(cur == prev.push(gal_neighbor(v, n - 1)));
            assert forall|k: int| 0 <= k < cur.len() implies gal_moved_by_one_of(v, #[trigger] cur[k], n) by {
                if k < prev.len() {
                    assert(cur[k] == prev[k]);
                    assert(gal_moved_by_one_of(v, prev[k], n - 1));
                    let i = choose|i: int| 0 <= i < n - 1 && #[trigger] gal_moved_by(v, prev[k], i);
                    assert(0 <= i < n && gal_moved_by(v, cur[k], i));
                } else {
                    assert(gal_moved_by(v, cur[k], n - 1));
                }
            }
            assert forall|i: int| 0 <= i < n && #[trigger] gal_neighbor_ok(v, i) implies exists|k: int|
                0 <= k < cur.len() && cur[k] == gal_neighbor(v, i) by {
                if i < n - 1 {
                    let k = choose|k: int| 0 <= k < prev.len() && prev[k] == gal_neighbor(v, i);
                    assert(cur[k] == prev[k]);
                } else {
                    assert(cur[prev.len() as int] == gal_neighbor(v, i));
                }
            }
        } else {
            assert(cur == prev);
            assert forall|k: int| 0 <= k < cur.len() implies gal_moved_by_one_of(v, #[trigger] cur[k], n) by {
                assert(gal_moved_by_one_of(v, prev[k], n - 1));
                let i = choose|i: int| 0 <= i < n - 1 && #[trigger] gal_moved_by(v, prev[k], i);
                assert(0 <= i < n && gal_moved_by(v, cur[k], i));
            }
        }
    }
}

/// The 14 neighbours of a Galactic128 that neither overflow nor leave the lattice.
pub fn neighbors_galactic128(galactic: Galactic128) -> (r: Vec<Galactic128>)
    ensures
        r@.map_values(|g: Galactic128| g@) == gal_neighbors_upto(galactic@, 14),
        forall|k: int| 0 <= k < r@.len() ==> gal_moved_by_one_of(galactic@, (#[trigger] r@[k])@, 14),
{
    let (x, y, z) = (galactic.x(), galactic.y(), galactic.z());
    let frame = galactic.frame_id();
    let scale_mant = galactic.scale_mant();
    let scale_tier = galactic.scale_tier();
    let lod = galactic.lod();
    let attr_usr = galactic.attr_usr();
    let mut out: Vec<Galactic128> = Vec::new();
    let mut i: usize = 0;
    while i < 14
        invariant
            i <= 14,
            x == gal_x(galactic@),
            y == gal_y(galactic@),
            z == gal_z(galactic@),
            frame == gal_frame(galactic@),
            scale_mant == gal_scale_mant(galactic@),
            scale_tier == gal_scale_tier(galactic@),
            lod == gal_lod(galactic@),
            attr_usr == gal_attr_usr(galactic@),
            scale_tier <= 3,
            lod <= 63,
            out@.map_values(|g: Galactic128| g@) == gal_neighbors_upto(galactic@, i as int),
        decreases 14 - i,
    {
        let (dx, dy, dz) = BCC_NEIGHBORS_14[i];
        assert(dx == neighbor_offset(i as int).0 && dy == neighbor_offset(i as int).1
            && dz == neighbor_offset(i as int).2);
        let ghost before = out@;
        let nx = x.checked_add(dx);
        let ny = y.checked_add(dy);
        let nz = z.checked_add(dz);
        if let (Some(nx), Some(ny), Some(nz)) = (nx, ny, nz) {
            match Galactic128::new(frame, scale_mant, scale_tier, lod, attr_usr, nx, ny, nz) {
                Ok(n) => {
                    proof {
                        let v = galactic@;
                        assert(attr_usr & 0xF == attr_usr) by (bit_vector)
                            requires attr_usr == gal_attr_usr(v);
                    }
                    out.push(n);
                    assert(out@.map_values(|g: Galactic128| g@) == before.map_values(
                        |g: Galactic128| g@,
                    ).push(n@));
                },
                Err(_) => {},
            }
        }
        i = i + 1;
    }
    proof {
        lemma_gal_neighbors_moved(galactic@);
        assert forall|k: int| 0 <= k < out@.len() implies gal_moved_by_one_of(galactic@, (#[trigger] out@[k])@, 14) by {
            assert(out@.map_values(|g: Galactic128| g@)[k] == out@[k]@);
            assert(gal_neighbors_upto(galactic@, 14)[k] == out@[k]@);
        }
    }
    out
}

/// Neighbours of an Index64 key. No neighbour list is defined for these keys
/// yet: the answer is always empty, so layers that walk a key's neighbourhood
/// see none.
pub fn neighbors_index64(_idx: Index64) -> (r: Vec<Index64>)
    ensures
        r@.len() == 0,
{
    Vec::new()
}

/// Manhattan distance between two Route64 cells.
pub fn manhattan_distance_route64(a: Route64, b: Route64) -> (r: i32)
    ensures
        r == abs(route_x(a@) - route_x(b@)) + abs(route_y(a@) - route_y(b@)) + abs(
            route_z(a@) - route_z(b@),
        ),
{
    let dx = a.x() - b.x();
    let dy = a.y() - b.y();
    let dz = a.z() - b.z();
    let ax = if dx < 0 { -dx } else { dx };
    let ay = if dy < 0 { -dy } else { dy };
    let az = if dz < 0 { -dz } else { dz };
    ax + ay + az
}

} // verus!
