//! Options of the GeoJSON export of identifiers.

use vstd::prelude::*;

verus! {

/// How identifiers are written as GeoJSON features.
#[derive(Debug, Clone, Copy, PartialEq, Eq)]
pub struct GeoJsonOptions {
    /// Include properties (frame, tier, level of detail).
    pub include_properties: bool,
    /// Coordinate precision in decimal places.
    pub precision: u8,
}

impl Default for GeoJsonOptions {
    /// Properties included, seven decimal places (about 1 cm).
    fn default() -> (r: Self)
        ensures
            r.include_properties,
            r.precision == 7,
    {
        Self { include_properties: true, precision: 7 }
    }
}

} // verus!
