//! Spatial mapping layers: lattice utilities, layer kinds and the plain
//! records that the mapping layers report.

pub mod bcc_utils;
pub mod measurement;
pub mod mesh;
pub mod occupancy;
pub mod occupancy_compressed;
pub mod occupancy_temporal;
pub mod ros2_bridge;

use vstd::prelude::*;

verus! {

/// Layer type identifier.
#[derive(Debug, Clone, Copy, PartialEq, Eq, Hash)]
pub enum LayerType {
    /// Truncated signed distance field (surface reconstruction).
    TSDF,
    /// Euclidean signed distance field (path planning).
    ESDF,
    /// Probabilistic occupancy (sensor fusion).
    Occupancy,
    /// RGB colour information.
    Color,
    /// Intensity (LiDAR).
    Intensity,
}

/// The human-readable name of a layer type.
pub open spec fn layer_type_name(t: LayerType) -> Seq<char> {
    match t {
        LayerType::TSDF => "TSDF"@,
        LayerType::ESDF => "ESDF"@,
        LayerType::Occupancy => "Occupancy"@,
        LayerType::Color => "Color"@,
        LayerType::Intensity => "Intensity"@,
    }
}

impl LayerType {
    /// Human-readable name.
    pub fn name(&self) -> (r: &'static str)
        ensures
            r@ == layer_type_name(*self),
    {
        match self {
            LayerType::TSDF => "TSDF",
            LayerType::ESDF => "ESDF",
            LayerType::Occupancy => "Occupancy",
            LayerType::Color => "Color",
            LayerType::Intensity => "Intensity",
        }
    }
}

} // verus!
