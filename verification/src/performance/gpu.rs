//! The GPU batch layer as this build has it: no CUDA, Metal or Vulkan device
//! support is compiled in, and the ROCm backend runs its kernels on the CPU
//! but reports no ROCm runtime, so no GPU backend can be created.

use vstd::prelude::*;
use crate::error::{Error, Result};
use crate::ids::Route64;
use crate::neighbors::route_values;
use crate::performance::fast_neighbors::{batch_neighbors_spec, neighbors_of_all};

verus! {

/// Whether a CUDA device can be used: never in this build.
pub fn is_cuda_available() -> (r: bool)
    ensures
        !r,
{
    false
}

/// Whether a Metal device can be used: never in this build.
pub fn is_metal_available() -> (r: bool)
    ensures
        !r,
{
    false
}

/// Whether a Vulkan device can be used: never in this build.
pub fn is_vulkan_available() -> (r: bool)
    ensures
        !r,
{
    false
}

/// Whether the ROCm runtime is present: this build has no HIP bindings to ask, so never.
pub fn is_rocm_available() -> (r: bool)
    ensures
        !r,
{
    false
}

/// Batch operations that a GPU backend offers.
pub trait GpuBackend {
    /// Whether the backend can run.
    fn is_available(&self) -> bool;

    /// The backend's name.
    fn name(&self) -> &'static str;

    /// The neighbours of every route, 14 per route, in order.
    fn batch_neighbors(&self, routes: &[Route64]) -> Result<Vec<Route64>>;

    /// Smallest batch worth sending to the device.
    fn min_batch_size(&self) -> usize;

    /// Largest batch the device takes.
    fn max_batch_size(&self) -> usize;
}

/// The AMD ROCm backend.
pub struct RocmBackend {
    device_id: i32,
}

impl RocmBackend {
    /// Opens the ROCm device; fails because no ROCm runtime is present.
    pub fn new() -> (r: Result<Self>)
        ensures
            r matches Err(Error::InvalidFormat(_)),
    {
        if !is_rocm_available() {
            return Err(Error::InvalidFormat(
                "ROCm runtime not available. Install ROCm drivers for AMD GPUs.".to_owned(),
            ));
        }
        Ok(Self { device_id: 0 })
    }

    /// The device's name.
    pub fn device_name(&self) -> (r: String)
        ensures
            r@ == "AMD Radeon (ROCm)"@,
    {
        "AMD Radeon (ROCm)".to_owned()
    }

    /// Number of compute units.
    pub fn compute_units(&self) -> (r: u32)
        ensures
            r == 64,
    {
        64
    }
}

impl GpuBackend for RocmBackend {
    fn is_available(&self) -> (r: bool)
        ensures
            r,
    {
        true
    }

    fn name(&self) -> (r: &'static str)
        ensures
            r@ == "ROCm (AMD Radeon)"@,
    {
        "ROCm (AMD Radeon)"
    }

    fn batch_neighbors(&self, routes: &[Route64]) -> (r: Result<Vec<Route64>>)
        ensures
            r matches Ok(v) && route_values(v@) == batch_neighbors_spec(route_values(routes@)),
    {
        Ok(neighbors_of_all(routes))
    }

    fn min_batch_size(&self) -> (r: usize)
        ensures
            r == 2000,
    {
        2000
    }

    fn max_batch_size(&self) -> (r: usize)
        ensures
            r == 10_000_000,
    {
        10_000_000
    }
}

/// The Apple Metal backend, absent from this build.
pub struct MetalBackend;

impl MetalBackend {
    /// Opens the Metal device; fails because Metal support is not compiled in.
    pub fn new() -> (r: Result<Self>)
        ensures
            r matches Err(Error::InvalidFormat(_)),
    {
        Err(Error::InvalidFormat("Metal feature not enabled".to_owned()))
    }
}

/// Runs batch operations on the best GPU backend of the build.
pub struct GpuBatchProcessor {
    backend: RocmBackend,
}

impl GpuBatchProcessor {
    /// A processor on the best available backend; fails when none can be
    /// opened, which in this build is always.
    pub fn new() -> (r: Result<Self>)
        ensures
            r matches Err(Error::InvalidFormat(_)),
    {
        match RocmBackend::new() {
            Ok(backend) => Ok(Self { backend }),
            Err(_) => Err(Error::InvalidFormat("No GPU backend available".to_owned())),
        }
    }

    /// The backend in use.
    pub closed spec fn spec_backend(&self) -> RocmBackend {
        self.backend
    }

    /// The backend in use.
    pub fn backend(&self) -> (r: &RocmBackend)
        ensures
            *r == self.spec_backend(),
    {
        &self.backend
    }

    /// Name of the backend in use.
    pub fn backend_name(&self) -> (r: &'static str)
        ensures
            r@ == "ROCm (AMD Radeon)"@,
    {
        self.backend.name()
    }

    /// Whether a batch of this size is worth sending to the device.
    pub fn should_use_gpu(&self, batch_size: usize) -> (r: bool)
        ensures
            r == (2000 <= batch_size && batch_size <= 10_000_000),
    {
        batch_size >= self.backend.min_batch_size() && batch_size <= self.backend.max_batch_size()
    }

    /// The neighbours of every route, 14 per route, in order; refuses a
    /// batch outside the device's range.
    pub fn batch_neighbors(&self, routes: &[Route64]) -> (r: Result<Vec<Route64>>)
        ensures
            !(2000 <= routes@.len() <= 10_000_000) ==> r matches Err(Error::InvalidFormat(_)),
            2000 <= routes@.len() <= 10_000_000 ==> (r matches Ok(v) && route_values(v@)
                == batch_neighbors_spec(route_values(routes@))),
    {
        if !self.should_use_gpu(routes.len()) {
            return Err(Error::InvalidFormat(crate::text::numbered(
                "Batch size ",
                routes.len() as i64,
                " outside GPU optimal range [2000, 10000000]",
            )));
        }
        self.backend.batch_neighbors(routes)
    }
}

} // verus!
