//! Neighbour generation for routes without range checks, for one route or
//! for many at once.

use vstd::prelude::*;
use crate::ids::Route64;
use crate::neighbors::{
    lemma_route_has_14_neighbors, route_interior, route_moved_by, route_neighbor, route_neighbors_spec, route_values,
};

verus! {

/// Raw values of the 14 unchecked neighbours of a route, in offset order;
/// coordinates that leave the 20-bit range wrap.
pub open spec fn fast_neighbors_spec(v: u64) -> Seq<u64> {
    Seq::new(14, |i: int| route_neighbor(v, i))
}

/// Raw values of the unchecked neighbours of each route in turn.
pub open spec fn batch_neighbors_spec(routes: Seq<u64>) -> Seq<u64>
    decreases routes.len(),
{
    if routes.len() == 0 {
        Seq::empty()
    } else {
        batch_neighbors_spec(routes.drop_last()) + fast_neighbors_spec(routes.last())
    }
}

/// A batch yields exactly 14 neighbours per route.
pub proof fn lemma_batch_neighbors_len(routes: Seq<u64>)
    ensures
        batch_neighbors_spec(routes).len() == 14 * routes.len(),
    decreases routes.len(),
{
    if routes.len() > 0 {
        lemma_batch_neighbors_len(routes.drop_last());
    }
}

/// The neighbours of two batches, put end to end, are the neighbours of the
/// two batches joined.
pub proof fn lemma_batch_neighbors_append(a: Seq<u64>, b: Seq<u64>)
    ensures
        batch_neighbors_spec(a + b) == batch_neighbors_spec(a) + batch_neighbors_spec(b),
    decreases b.len(),
{
    if b.len() == 0 {
        assert(a + b =~= a);
        assert(batch_neighbors_spec(a) + batch_neighbors_spec(b) =~= batch_neighbors_spec(a));
    } else {
        lemma_batch_neighbors_append(a, b.drop_last());
        assert((a + b).drop_last() =~= a + b.drop_last());
        assert((a + b).last() == b.last());
        assert(batch_neighbors_spec(a) + batch_neighbors_spec(b.drop_last()) + fast_neighbors_spec(b.last())
            =~= batch_neighbors_spec(a) + (batch_neighbors_spec(b.drop_last()) + fast_neighbors_spec(b.last())));
    }
}

/// The chunks that a `NeighborStream` hands out add up to the whole batch:
/// the neighbours of the routes before position `p`, followed by those of
/// the chunk from `p` to `q`, are the neighbours of the routes before `q`.
pub proof fn lemma_stream_chunks_concatenate(routes: Seq<Route64>, p: int, q: int)
    requires
        0 <= p <= q <= routes.len(),
    ensures
        batch_neighbors_spec(route_values(routes.subrange(0, p))) + batch_neighbors_spec(
            route_values(routes.subrange(p, q)),
        ) == batch_neighbors_spec(route_values(routes.subrange(0, q))),
{
    assert(route_values(routes.subrange(0, q)) =~= route_values(routes.subrange(0, p)) + route_values(
        routes.subrange(p, q),
    ));
    lemma_batch_neighbors_append(route_values(routes.subrange(0, p)), route_values(routes.subrange(p, q)));
}

/// Neighbour `j` of route `i` of a batch sits at position `14 * i + j`.
pub proof fn lemma_batch_neighbors_index(routes: Seq<u64>, i: int, j: int)
    requires
        0 <= i < routes.len(),
        0 <= j < 14,
    ensures
        batch_neighbors_spec(routes).len() == 14 * routes.len(),
        batch_neighbors_spec(routes)[14 * i + j] == route_neighbor(routes[i], j),
    decreases routes.len(),
{
    lemma_batch_neighbors_len(routes);
    lemma_batch_neighbors_len(routes.drop_last());
    if i < routes.len() - 1 {
        lemma_batch_neighbors_index(routes.drop_last(), i, j);
    }
}

/// Away from the edges of the 20-bit range the unchecked neighbours are
/// exactly the checked ones.
pub proof fn lemma_fast_matches_checked(v: u64)
    requires
        route_interior(v),
    ensures
        fast_neighbors_spec(v) == route_neighbors_spec(v),
{
    lemma_route_has_14_neighbors(v);
    assert(fast_neighbors_spec(v) =~= route_neighbors_spec(v));
}

/// The 14 neighbours of a route, without range or parity checks.
#[must_use]
pub fn neighbors_route64_fast(route: Route64) -> (r: [Route64; 14])
    ensures
        route_values(r@) == fast_neighbors_spec(route@),
        route_interior(route@) ==> forall|i: int| 0 <= i < 14 ==> route_moved_by(route@, (#[trigger] r@[i])@, i),
{
    let x = route.x();
    let y = route.y();
    let z = route.z();
    let tier = route.scale_tier();
    let r = [
        Route64::new_unchecked(tier, x + 1, y + 1, z + 1),
        Route64::new_unchecked(tier, x + 1, y + 1, z - 1),
        Route64::new_unchecked(tier, x + 1, y - 1, z + 1),
        Route64::new_unchecked(tier, x + 1, y - 1, z - 1),
        Route64::new_unchecked(tier, x - 1, y + 1, z + 1),
        Route64::new_unchecked(tier, x - 1, y + 1, z - 1),
        Route64::new_unchecked(tier, x - 1, y - 1, z + 1),
        Route64::new_unchecked(tier, x - 1, y - 1, z - 1),
        Route64::new_unchecked(tier, x + 2, y, z),
        Route64::new_unchecked(tier, x - 2, y, z),
        Route64::new_unchecked(tier, x, y + 2, z),
        Route64::new_unchecked(tier, x, y - 2, z),
        Route64::new_unchecked(tier, x, y, z + 2),
        Route64::new_unchecked(tier, x, y, z - 2),
    ];
    assert(route_values(r@) =~= fast_neighbors_spec(route@));
    proof {
        if route_interior(route@) {
            lemma_route_has_14_neighbors(route@);
            assert forall|i: int| 0 <= i < 14 implies route_moved_by(route@, (#[trigger] r@[i])@, i) by {
                assert(route_values(r@)[i] == r@[i]@);
                assert(route_neighbors_spec(route@)[i] == route_neighbor(route@, i));
            }
        }
    }
    r
}

/// Appends the 14 unchecked neighbours of `route` to `out`.
fn append_neighbors(out: &mut Vec<Route64>, route: Route64)
    ensures
        route_values(final(out)@) == route_values(old(out)@) + fast_neighbors_spec(route@),
{
    let nb = neighbors_route64_fast(route);
    let ghost start = out@;
    let mut j: usize = 0;
    while j < 14
        invariant
            j <= 14,
            route_values(nb@) == fast_neighbors_spec(route@),
            out@ == start + nb@.subrange(0, j as int),
        decreases 14 - j,
    {
        out.push(nb[j]);
        assert(out@ =~= start + nb@.subrange(0, j + 1));
        j = j + 1;
    }
    assert(nb@.subrange(0, 14) =~= nb@);
    assert(route_values(start + nb@) =~= route_values(start) + route_values(nb@));
}

/// The unchecked neighbours of every route of a slice, 14 per route, in order.
pub(crate) fn neighbors_of_all(routes: &[Route64]) -> (r: Vec<Route64>)
    ensures
        route_values(r@) == batch_neighbors_spec(route_values(routes@)),
{
    let mut result: Vec<Route64> = Vec::new();
    let mut i: usize = 0;
    while i < routes.len()
        invariant
            i <= routes.len(),
            route_values(result@) == batch_neighbors_spec(route_values(routes@.subrange(0, i as int))),
        decreases routes.len() - i,
    {
        append_neighbors(&mut result, routes[i]);
        assert(route_values(routes@.subrange(0, i + 1)).drop_last() =~= route_values(
            routes@.subrange(0, i as int),
        ));
        i = i + 1;
    }
    assert(routes@.subrange(0, routes.len() as int) =~= routes@);
    result
}

/// Unchecked neighbours of a batch of routes, 14 per route, in order.
pub fn batch_neighbors_fast(routes: &[Route64]) -> (r: Vec<Route64>)
    ensures
        route_values(r@) == batch_neighbors_spec(route_values(routes@)),
{
    neighbors_of_all(routes)
}

/// Unchecked neighbours of a fixed-size batch of routes.
pub fn batch_neighbors_small<const N: usize>(routes: &[Route64; N]) -> (r: Vec<Route64>)
    ensures
        route_values(r@) == batch_neighbors_spec(route_values(routes@)),
{
    neighbors_of_all(routes.as_slice())
}

/// Unchecked neighbours of a batch of routes, taken in blocks of 64 routes.
pub fn batch_neighbors_medium(routes: &[Route64]) -> (r: Vec<Route64>)
    ensures
        route_values(r@) == batch_neighbors_spec(route_values(routes@)),
{
    let block: usize = 64;
    let mut result: Vec<Route64> = Vec::new();
    let mut start: usize = 0;
    while start < routes.len()
        invariant
            start <= routes.len(),
            block == 64,
            route_values(result@) == batch_neighbors_spec(route_values(routes@.subrange(0, start as int))),
        decreases routes.len() - start,
    {
        let end = if routes.len() - start < block { routes.len() } else { start + block };
        let mut i = start;
        while i < end
            invariant
                start <= i <= end <= routes.len(),
                route_values(result@) == batch_neighbors_spec(route_values(routes@.subrange(0, i as int))),
            decreases end - i,
        {
            append_neighbors(&mut result, routes[i]);
            assert(route_values(routes@.subrange(0, i + 1)).drop_last() =~= route_values(
                routes@.subrange(0, i as int),
            ));
            i = i + 1;
        }
        start = end;
    }
    assert(routes@.subrange(0, routes.len() as int) =~= routes@);
    result
}

/// Unchecked neighbours of a batch, choosing the strategy by batch size.
pub fn batch_neighbors_auto(routes: &[Route64]) -> (r: Vec<Route64>)
    ensures
        route_values(r@) == batch_neighbors_spec(route_values(routes@)),
{
    if routes.len() <= 100 {
        batch_neighbors_fast(routes)
    } else {
        batch_neighbors_medium(routes)
    }
}

/// Walks a slice of routes in chunks, giving the neighbours of one chunk per call.
pub struct NeighborStream<'a> {
    routes: &'a [Route64],
    position: usize,
    chunk_size: usize,
}

impl<'a> NeighborStream<'a> {
    /// The routes that the stream walks.
    pub closed spec fn spec_routes(&self) -> Seq<Route64> {
        self.routes@
    }

    /// Index of the first route not yet handed out.
    pub closed spec fn spec_position(&self) -> usize {
        self.position
    }

    /// Number of routes per chunk.
    pub closed spec fn spec_chunk_size(&self) -> usize {
        self.chunk_size
    }

    /// A stream over `routes`, from the start, 256 routes per chunk.
    pub fn new(routes: &'a [Route64]) -> (r: Self)
        ensures
            r.spec_routes() == routes@,
            r.spec_position() == 0,
            r.spec_chunk_size() == 256,
    {
        Self { routes, position: 0, chunk_size: 256 }
    }

    /// The same stream with `size` routes per chunk.
    pub fn with_chunk_size(self, size: usize) -> (r: Self)
        ensures
            r.spec_routes() == self.spec_routes(),
            r.spec_position() == self.spec_position(),
            r.spec_chunk_size() == size,
    {
        Self { routes: self.routes, position: self.position, chunk_size: size }
    }

    /// The neighbours of the next chunk of routes, or `None` once every route
    /// has been handed out.
    pub fn next_chunk(&mut self) -> (r: Option<Vec<Route64>>)
        ensures
            final(self).spec_routes() == old(self).spec_routes(),
            final(self).spec_chunk_size() == old(self).spec_chunk_size(),
            ({
                let len = old(self).spec_routes().len();
                let pos = old(self).spec_position() as int;
                let end = if len - pos < old(self).spec_chunk_size() {
                    len as int
                } else {
                    pos + old(self).spec_chunk_size()
                };
                if pos >= len {
                    r is None && final(self).spec_position() == old(self).spec_position()
                } else {
                    r matches Some(v) && route_values(v@) == batch_neighbors_spec(
                        route_values(old(self).spec_routes().subrange(pos, end)),
                    ) && final(self).spec_position() == end
                }
            }),
    {
        let len = self.routes.len();
        if self.position >= len {
            return None;
        }
        let end = if len - self.position < self.chunk_size {
            len
        } else {
            self.position + self.chunk_size
        };
        let chunk = vstd::slice::slice_subrange(self.routes, self.position, end);
        self.position = end;
        Some(batch_neighbors_auto(chunk))
    }
}

} // verus!
