//! Statistics of a time-decaying occupancy layer.

use vstd::prelude::*;

verus! {

/// Statistics for a temporal occupancy layer.
#[derive(Debug, Default)]
pub struct TemporalStats {
    pub total_voxels: usize,
    pub occupied_count: usize,
    pub free_count: usize,
    pub unknown_count: usize,
    pub dynamic_voxels: usize,
    pub stale_voxels: usize,
}

} // verus!
