//! Occupancy classification and occupancy statistics.

use vstd::prelude::*;

verus! {

/// Occupancy state classification.
#[derive(Debug, Clone, Copy, PartialEq, Eq)]
pub enum OccupancyState {
    /// No measurements yet.
    Unknown,
    /// Likely unoccupied.
    Free,
    /// Likely occupied.
    Occupied,
}

/// Statistics about an occupancy layer.
#[derive(Debug, Clone)]
pub struct OccupancyStats {
    pub total_voxels: usize,
    pub occupied_count: usize,
    pub free_count: usize,
    pub unknown_count: usize,
    pub total_measurements: u32,
}

} // verus!
