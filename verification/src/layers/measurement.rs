//! Kinds of sensor measurement.

use vstd::prelude::*;

verus! {

/// Type of sensor measurement.
#[derive(Debug, Clone, Copy, PartialEq, Eq)]
pub enum MeasurementType {
    /// Depth measurement (depth camera, LiDAR).
    Depth,
    /// Occupancy observation (occupied or free).
    Occupancy,
    /// RGB colour.
    Color,
    /// Intensity (LiDAR reflectivity).
    Intensity,
}

} // verus!
