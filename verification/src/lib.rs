//! Spatial indexing on the body-centred cubic (BCC) lattice.

pub mod error;
pub mod game;
pub mod lattice;
pub mod layer;
pub mod morton;
pub mod ids;
pub mod neighbors;
pub mod performance;
pub mod hilbert;
pub mod id;
pub mod bytes;
pub mod bech32m;
pub mod compression;
pub mod container;
pub mod container_v2;
pub mod layers;
pub mod graph;
pub mod grid;
pub mod path;
pub mod geojson;
pub mod frame;
pub mod coord_text;
pub mod text;
pub mod display;

pub use crate::error::{Error, Result};
pub use crate::hilbert::Hilbert64;
pub use crate::id::CellID;
pub use crate::ids::{FrameId, Galactic128, Index64, Route64};
pub use crate::lattice::{Lattice, LatticeCoord, Parity, BCC_NEIGHBORS_14};
pub use crate::performance::batch::{BatchIndexBuilder, BatchNeighborCalculator, BatchResult};
pub use crate::performance::Backend;
pub use crate::container_v2::{ContainerWriterV2, HeaderV2, StreamConfig};

use vstd::prelude::*;

verus! {

/// Library version.
pub const VERSION: &'static str = "0.5.6";

} // verus!
