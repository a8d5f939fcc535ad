//! Mesh faces and mesh statistics.

use vstd::prelude::*;

verus! {

/// Triangle face: three indices into a vertex array.
#[derive(Debug, Clone, Copy)]
pub struct Triangle {
    /// Indices into the vertex array.
    pub indices: [usize; 3],
}

impl Triangle {
    /// A triangle over the vertices `i0`, `i1`, `i2`, in that order.
    pub fn new(i0: usize, i1: usize, i2: usize) -> (r: Self)
        ensures
            r.indices@ == seq![i0, i1, i2],
    {
        let r = Self { indices: [i0, i1, i2] };
        assert(r.indices@ =~= seq![i0, i1, i2]);
        r
    }
}

/// Mesh statistics.
#[derive(Debug, Clone)]
pub struct MeshStats {
    pub vertex_count: usize,
    pub triangle_count: usize,
    pub has_normals: bool,
}

} // verus!
