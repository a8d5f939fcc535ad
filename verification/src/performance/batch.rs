//! Building many identifiers, and the neighbours of many routes, in one call.

use vstd::prelude::*;
use crate::error::Error;
use crate::ids::{key_pack, Index64, Route64};
use crate::morton::morton_spec;
use crate::neighbors::{neighbors_route64, route_interior, route_neighbors_spec, route_values};
use crate::performance::fast_neighbors::{batch_neighbors_spec, lemma_batch_neighbors_len, lemma_fast_matches_checked};

verus! {

/// The outcome of a batch operation: the values built, in input order, and
/// the position and error of every input that failed.
#[derive(Debug, Clone)]
pub struct BatchResult<T> {
    pub items: Vec<T>,
    pub errors: Vec<(usize, Error)>,
}

impl<T> BatchResult<T> {
    /// A result holding `items` and no errors.
    pub fn new(items: Vec<T>) -> (r: Self)
        ensures
            r.items@ == items@,
            r.errors@.len() == 0,
    {
        Self { items, errors: Vec::new() }
    }

    /// An empty result.
    pub fn with_capacity(capacity: usize) -> (r: Self)
        ensures
            r.items@.len() == 0,
            r.errors@.len() == 0,
    {
        Self { items: Vec::with_capacity(capacity), errors: Vec::new() }
    }

    /// Number of values built.
    pub fn len(&self) -> (r: usize)
        ensures
            r == self.items@.len(),
    {
        self.items.len()
    }

    /// Whether no value was built.
    pub fn is_empty(&self) -> (r: bool)
        ensures
            r == (self.items@.len() == 0),
    {
        self.items.len() == 0
    }

    /// Whether some input failed.
    pub fn has_errors(&self) -> (r: bool)
        ensures
            r == (self.errors@.len() > 0),
    {
        self.errors.len() > 0
    }
}

/// Input `i` of a batch of Index64 requests is accepted.
pub open spec fn index_entry_ok(tiers: Seq<u8>, lods: Seq<u8>, i: int) -> bool {
    tiers[i] <= 3 && lods[i] <= 15
}

/// Raw value of the Index64 built from input `i`.
pub open spec fn index_entry_key(
    frames: Seq<u8>,
    tiers: Seq<u8>,
    lods: Seq<u8>,
    xs: Seq<u16>,
    ys: Seq<u16>,
    zs: Seq<u16>,
    i: int,
) -> u64 {
    key_pack(2, tiers[i], frames[i], lods[i], morton_spec(xs[i] as nat, ys[i] as nat, zs[i] as nat, 16) as u64)
}

/// Raw values of the Index64s built from the first `n` inputs, in order.
pub open spec fn built_index_keys(
    frames: Seq<u8>,
    tiers: Seq<u8>,
    lods: Seq<u8>,
    xs: Seq<u16>,
    ys: Seq<u16>,
    zs: Seq<u16>,
    n: int,
) -> Seq<u64>
    decreases n,
{
    if n <= 0 {
        Seq::empty()
    } else if index_entry_ok(tiers, lods, n - 1) {
        built_index_keys(frames, tiers, lods, xs, ys, zs, n - 1).push(
            index_entry_key(frames, tiers, lods, xs, ys, zs, n - 1),
        )
    } else {
        built_index_keys(frames, tiers, lods, xs, ys, zs, n - 1)
    }
}

/// Positions of the rejected inputs among the first `n`, in order.
pub open spec fn rejected_positions(tiers: Seq<u8>, lods: Seq<u8>, n: int) -> Seq<usize>
    decreases n,
{
    if n <= 0 {
        Seq::empty()
    } else if index_entry_ok(tiers, lods, n - 1) {
        rejected_positions(tiers, lods, n - 1)
    } else {
        rejected_positions(tiers, lods, n - 1).push((n - 1) as usize)
    }
}

/// The error reported for a rejected input: a bad tier is reported before a bad
/// level of detail.
pub open spec fn index_error_matches(e: Error, tier: u8) -> bool {
    if tier > 3 {
        e is InvalidScaleTier
    } else {
        e is InvalidLOD
    }
}

/// Raw values of a sequence of Index64s.
pub open spec fn index_values(s: Seq<Index64>) -> Seq<u64> {
    s.map_values(|k: Index64| k@)
}

/// The contract of a batch of Index64 requests over the given inputs.
pub open spec fn index_batch_correct(
    r: BatchResult<Index64>,
    frames: Seq<u8>,
    tiers: Seq<u8>,
    lods: Seq<u8>,
    xs: Seq<u16>,
    ys: Seq<u16>,
    zs: Seq<u16>,
) -> bool {
    let n = frames.len() as int;
    &&& index_values(r.items@) == built_index_keys(frames, tiers, lods, xs, ys, zs, n)
    &&& r.errors@.map_values(|e: (usize, Error)| e.0) == rejected_positions(tiers, lods, n)
    &&& forall|k: int| 0 <= k < r.errors@.len() ==> index_error_matches(#[trigger] r.errors@[k].1, tiers[r.errors@[k].0 as int])
}

/// Builds one Index64 per input position; the rejected positions are reported
/// with their errors.
pub(crate) fn build_indices(
    frame_ids: &[u8],
    dimension_ids: &[u8],
    lods: &[u8],
    x_coords: &[u16],
    y_coords: &[u16],
    z_coords: &[u16],
) -> (r: BatchResult<Index64>)
    requires
        dimension_ids.len() == frame_ids.len(),
        lods.len() == frame_ids.len(),
        x_coords.len() == frame_ids.len(),
        y_coords.len() == frame_ids.len(),
        z_coords.len() == frame_ids.len(),
    ensures
        index_batch_correct(r, frame_ids@, dimension_ids@, lods@, x_coords@, y_coords@, z_coords@),
{
    let len = frame_ids.len();
    let mut result: BatchResult<Index64> = BatchResult::with_capacity(len);
    let mut i: usize = 0;
    while i < len
        invariant
            i <= len,
            len == frame_ids.len(),
            dimension_ids.len() == len,
            lods.len() == len,
            x_coords.len() == len,
            y_coords.len() == len,
            z_coords.len() == len,
            index_values(result.items@) == built_index_keys(
                frame_ids@,
                dimension_ids@,
                lods@,
                x_coords@,
                y_coords@,
                z_coords@,
                i as int,
            ),
            result.errors@.map_values(|e: (usize, Error)| e.0) == rejected_positions(
                dimension_ids@,
                lods@,
                i as int,
            ),
            forall|k: int|
                0 <= k < result.errors@.len() ==> (#[trigger] result.errors@[k]).0 < i
                    && index_error_matches(result.errors@[k].1, dimension_ids@[result.errors@[k].0 as int]),
        decreases len - i,
    {
        let ghost items_before = result.items@;
        let ghost errors_before = result.errors@;
        match Index64::new(frame_ids[i], dimension_ids[i], lods[i], x_coords[i], y_coords[i], z_coords[i]) {
            Ok(idx) => {
                result.items.push(idx);
                assert(index_values(result.items@) =~= index_values(items_before).push(idx@));
            },
            Err(e) => {
                result.errors.push((i, e));
                assert(result.errors@.map_values(|e: (usize, Error)| e.0) =~= errors_before.map_values(
                    |e: (usize, Error)| e.0,
                ).push(i));
            },
        }
        i = i + 1;
    }
    result
}

/// Builds many Index64s at once.
pub struct BatchIndexBuilder {
    use_simd: bool,
}

impl BatchIndexBuilder {
    /// Whether the builder asks for a vector-instruction path.
    pub closed spec fn spec_use_simd(&self) -> bool {
        self.use_simd
    }

    /// A builder; this build has no vector-instruction path, so it is off.
    pub fn new() -> (r: Self)
        ensures
            !r.spec_use_simd(),
    {
        Self { use_simd: false }
    }

    /// The builder with the vector-instruction path requested or not (the
    /// vector-instruction feature is part of the build); every path computes
    /// the same values.
    pub fn with_simd(self, enabled: bool) -> (r: Self)
        ensures
            r.spec_use_simd() == enabled,
    {
        Self { use_simd: enabled }
    }

    /// One Index64 per input position (frame, tier, level of detail and
    /// coordinates taken at the same position of each slice).
    pub fn build(
        &self,
        frame_ids: &[u8],
        dimension_ids: &[u8],
        lods: &[u8],
        x_coords: &[u16],
        y_coords: &[u16],
        z_coords: &[u16],
    ) -> (r: BatchResult<Index64>)
        requires
            dimension_ids.len() == frame_ids.len(),
            lods.len() == frame_ids.len(),
            x_coords.len() == frame_ids.len(),
            y_coords.len() == frame_ids.len(),
            z_coords.len() == frame_ids.len(),
        ensures
            index_batch_correct(r, frame_ids@, dimension_ids@, lods@, x_coords@, y_coords@, z_coords@),
    {
        build_indices(frame_ids, dimension_ids, lods, x_coords, y_coords, z_coords)
    }
}

impl Default for BatchIndexBuilder {
    fn default() -> (r: Self)
        ensures
            !r.spec_use_simd(),
    {
        Self::new()
    }
}

/// Raw values of the checked neighbours of each route in turn.
pub open spec fn checked_batch_spec(routes: Seq<u64>) -> Seq<u64>
    decreases routes.len(),
{
    if routes.len() == 0 {
        Seq::empty()
    } else {
        checked_batch_spec(routes.drop_last()) + route_neighbors_spec(routes.last())
    }
}

/// For routes two or more steps inside the range, the unchecked neighbours of
/// a batch (what `batch_neighbors_auto`, `batch_neighbors_fast` and
/// `batch_neighbors_medium` give) are the checked neighbours of each route in
/// turn (what `BatchNeighborCalculator::calculate` gives): 14 per route, in
/// offset order.
pub proof fn lemma_checked_batch_matches_fast(routes: Seq<u64>)
    requires
        forall|i: int| 0 <= i < routes.len() ==> route_interior(#[trigger] routes[i]),
    ensures
        checked_batch_spec(routes) == batch_neighbors_spec(routes),
        batch_neighbors_spec(routes).len() == 14 * routes.len(),
    decreases routes.len(),
{
    lemma_batch_neighbors_len(routes);
    if routes.len() > 0 {
        let init = routes.drop_last();
        assert forall|i: int| 0 <= i < init.len() implies route_interior(#[trigger] init[i]) by {
            assert(init[i] == routes[i]);
        }
        lemma_checked_batch_matches_fast(init);
        lemma_fast_matches_checked(routes.last());
    }
}

/// The groups of neighbours that `BatchNeighborCalculator::calculate_grouped`
/// gives, one per route, put end to end, are what
/// `BatchNeighborCalculator::calculate` gives for the same routes.
pub proof fn lemma_grouped_concatenate(routes: Seq<Route64>, groups: Seq<Seq<Route64>>)
    requires
        groups.len() == routes.len(),
        forall|i: int| 0 <= i < groups.len() ==> route_values(#[trigger] groups[i]) == route_neighbors_spec(routes[i]@),
    ensures
        route_values(groups.flatten()) == checked_batch_spec(route_values(routes)),
{
    groups.lemma_flatten_and_flatten_alt_are_equivalent();
    lemma_grouped_concatenate_alt(routes, groups);
}

proof fn lemma_grouped_concatenate_alt(routes: Seq<Route64>, groups: Seq<Seq<Route64>>)
    requires
        groups.len() == routes.len(),
        forall|i: int| 0 <= i < groups.len() ==> route_values(#[trigger] groups[i]) == route_neighbors_spec(routes[i]@),
    ensures
        route_values(groups.flatten_alt()) == checked_batch_spec(route_values(routes)),
    decreases routes.len(),
{
    if routes.len() > 0 {
        let gi = groups.drop_last();
        let ri = routes.drop_last();
        assert forall|i: int| 0 <= i < gi.len() implies route_values(#[trigger] gi[i]) == route_neighbors_spec(ri[i]@) by {
            assert(gi[i] == groups[i] && ri[i] == routes[i]);
        }
        lemma_grouped_concatenate_alt(ri, gi);
        assert(route_values(gi.flatten_alt() + groups.last()) =~= route_values(gi.flatten_alt()) + route_values(
            groups.last(),
        ));
        assert(route_values(routes).drop_last() =~= route_values(ri));
        assert(groups[groups.len() - 1] == groups.last());
    }
}

/// The checked neighbours of every route, concatenated in route order.
pub(crate) fn checked_neighbors_of_all(routes: &[Route64]) -> (r: Vec<Route64>)
    ensures
        route_values(r@) == checked_batch_spec(route_values(routes@)),
{
    let mut result: Vec<Route64> = Vec::new();
    let mut i: usize = 0;
    while i < routes.len()
        invariant
            i <= routes.len(),
            route_values(result@) == checked_batch_spec(route_values(routes@.subrange(0, i as int))),
        decreases routes.len() - i,
    {
        let mut nb = neighbors_route64(routes[i]);
        let ghost before = result@;
        let ghost added = nb@;
        result.append(&mut nb);
        assert(route_values(before + added) =~= route_values(before) + route_values(added));
        assert(route_values(routes@.subrange(0, i + 1)).drop_last() =~= route_values(
            routes@.subrange(0, i as int),
        ));
        i = i + 1;
    }
    assert(routes@.subrange(0, routes.len() as int) =~= routes@);
    result
}

/// The checked neighbours of every route, one vector per route.
pub(crate) fn checked_neighbors_grouped(routes: &[Route64]) -> (r: Vec<Vec<Route64>>)
    ensures
        r@.len() == routes@.len(),
        forall|i: int| 0 <= i < r@.len() ==> route_values((#[trigger] r@[i])@) == route_neighbors_spec(routes@[i]@),
{
    let mut result: Vec<Vec<Route64>> = Vec::new();
    let mut i: usize = 0;
    while i < routes.len()
        invariant
            i <= routes.len(),
            result@.len() == i,
            forall|k: int| 0 <= k < i ==> route_values((#[trigger] result@[k])@) == route_neighbors_spec(routes@[k]@),
        decreases routes.len() - i,
    {
        result.push(neighbors_route64(routes[i]));
        i = i + 1;
    }
    result
}

/// Computes the neighbours of many routes.
pub struct BatchNeighborCalculator {
    use_simd: bool,
}

impl BatchNeighborCalculator {
    /// Whether the calculator asks for a vector-instruction path.
    pub closed spec fn spec_use_simd(&self) -> bool {
        self.use_simd
    }

    /// A calculator; this build has no vector-instruction path, so it is off.
    pub fn new() -> (r: Self)
        ensures
            !r.spec_use_simd(),
    {
        Self { use_simd: false }
    }

    /// The calculator with the vector-instruction path requested or not (the
    /// vector-instruction feature is part of the build); every path computes
    /// the same values.
    pub fn with_simd(self, enabled: bool) -> (r: Self)
        ensures
            r.spec_use_simd() == enabled,
    {
        Self { use_simd: enabled }
    }

    /// The checked neighbours of every route, concatenated in route order.
    pub fn calculate(&self, routes: &[Route64]) -> (r: Vec<Route64>)
        ensures
            route_values(r@) == checked_batch_spec(route_values(routes@)),
    {
        checked_neighbors_of_all(routes)
    }

    /// The checked neighbours of every route, one vector per route.
    pub fn calculate_grouped(&self, routes: &[Route64]) -> (r: Vec<Vec<Route64>>)
        ensures
            r@.len() == routes@.len(),
            forall|i: int| 0 <= i < r@.len() ==> route_values((#[trigger] r@[i])@) == route_neighbors_spec(routes@[i]@),
    {
        checked_neighbors_grouped(routes)
    }
}

impl Default for BatchNeighborCalculator {
    fn default() -> (r: Self)
        ensures
            !r.spec_use_simd(),
    {
        Self::new()
    }
}

} // verus!
