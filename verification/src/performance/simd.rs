//! Batch operations behind the vector-instruction entry points; every path
//! computes the same values as the scalar one.

use vstd::prelude::*;
use crate::ids::{Index64, Route64};
use crate::neighbors::{route_neighbors_spec, route_values};
use crate::performance::batch::{
    build_indices, checked_batch_spec, checked_neighbors_grouped, checked_neighbors_of_all,
    index_batch_correct, BatchResult,
};

verus! {

/// Name of the widest vector-instruction set on an x86-64 processor with the
/// given features.
pub fn simd_name_for(has_avx512f: bool, has_avx2: bool) -> (r: &'static str)
    ensures
        has_avx512f ==> r@ == "x86 AVX-512"@,
        !has_avx512f && has_avx2 ==> r@ == "x86 AVX2"@,
        !has_avx512f && !has_avx2 ==> r@ == "none"@,
{
    if has_avx512f {
        "x86 AVX-512"
    } else if has_avx2 {
        "x86 AVX2"
    } else {
        "none"
    }
}

/// One Index64 per input position; rejected positions are reported with their errors.
pub fn batch_index64_new(
    frame_ids: &[u8],
    dimension_ids: &[u8],
    lods: &[u8],
    x_coords: &[u16],
    y_coords: &[u16],
    z_coords: &[u16],
) -> (r: BatchResult<Index64>)
    requires
        dimension_ids.len() == frame_ids.len(),
        lods.len() == frame_ids.len(),
        x_coords.len() == frame_ids.len(),
        y_coords.len() == frame_ids.len(),
        z_coords.len() == frame_ids.len(),
    ensures
        index_batch_correct(r, frame_ids@, dimension_ids@, lods@, x_coords@, y_coords@, z_coords@),
{
    build_indices(frame_ids, dimension_ids, lods, x_coords, y_coords, z_coords)
}

/// The checked neighbours of every route, concatenated in route order.
pub fn batch_neighbors(routes: &[Route64]) -> (r: Vec<Route64>)
    ensures
        route_values(r@) == checked_batch_spec(route_values(routes@)),
{
    checked_neighbors_of_all(routes)
}

/// The checked neighbours of every route, one vector per route.
pub fn batch_neighbors_grouped(routes: &[Route64]) -> (r: Vec<Vec<Route64>>)
    ensures
        r@.len() == routes@.len(),
        forall|i: int| 0 <= i < r@.len() ==> route_values((#[trigger] r@[i])@) == route_neighbors_spec(routes@[i]@),
{
    checked_neighbors_grouped(routes)
}

} // verus!
