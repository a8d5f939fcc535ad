//! Batch and streaming forms of the lattice operations, and the choice of
//! the backend that runs them.

pub mod arch_optimized;
pub mod avx512;
pub mod batch;
pub mod fast_neighbors;
pub mod gpu;
pub mod hilbert_batch;
pub mod memory;
pub mod morton_batch;
pub mod parallel;
pub mod simd;
pub mod simd_batch;

use vstd::prelude::*;

verus! {

/// Where batch operations run. This build has the CPU backends: one thread,
/// or the parallel builders of [`parallel`].
#[derive(Debug, Clone, Copy, PartialEq, Eq)]
pub enum Backend {
    CpuSingleThreaded,
    CpuParallel,
}

impl Backend {
    /// The best backend of this build: no GPU backend is built, so the
    /// parallel CPU one.
    pub fn best_available() -> (r: Self)
        ensures
            r == Backend::CpuParallel,
    {
        Backend::CpuParallel
    }

    /// Whether the backend can run here: both CPU backends always can.
    pub fn is_available(&self) -> (r: bool)
        ensures
            r,
    {
        match self {
            Backend::CpuSingleThreaded => true,
            Backend::CpuParallel => true,
        }
    }
}

impl Default for Backend {
    fn default() -> (r: Self)
        ensures
            r == Backend::CpuParallel,
    {
        Self::best_available()
    }
}

} // verus!
