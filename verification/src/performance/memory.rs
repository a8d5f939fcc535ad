//! Fixed-capacity buffers and cache-line arithmetic.

use vstd::prelude::*;
use vstd::layout::{align_of, size_of, valid_layout};
use crate::ids::Route64;
use crate::neighbors::route_values;
use crate::performance::fast_neighbors::{batch_neighbors_spec, neighbors_of_all};

verus! {

/// Cache line size of common processors, in bytes.
pub const CACHE_LINE_SIZE: usize = 64;

/// Huge page size, in bytes.
pub const HUGE_PAGE_SIZE: usize = 2 * 1024 * 1024;

/// A vector with a fixed capacity and a requested alignment. The storage is an
/// ordinary `Vec`, so the alignment is recorded but only that of `T` is
/// provided.
pub struct AlignedVec<T> {
    items: Vec<T>,
    capacity: usize,
    alignment: usize,
}

impl<T> View for AlignedVec<T> {
    type V = Seq<T>;

    closed spec fn view(&self) -> Seq<T> {
        self.items@
    }
}

impl<T> AlignedVec<T> {
    /// The fixed capacity.
    pub closed spec fn spec_capacity(&self) -> usize {
        self.capacity
    }

    /// The requested alignment.
    pub closed spec fn spec_alignment(&self) -> usize {
        self.alignment
    }

    /// An empty vector with room for `capacity` items and the given alignment,
    /// which must be a power of two at least the alignment of `T`, with the
    /// whole buffer a valid allocation size.
    pub fn with_capacity_aligned(capacity: usize, alignment: usize) -> (r: Self)
        requires
            vstd::arithmetic::power2::is_pow2(alignment as int),
            alignment >= align_of::<T>(),
            capacity * size_of::<T>() <= usize::MAX,
            valid_layout((capacity * size_of::<T>()) as usize, alignment),
        ensures
            r@ == Seq::<T>::empty(),
            r.spec_capacity() == capacity,
            r.spec_alignment() == alignment,
    {
        Self { items: Vec::new(), capacity, alignment }
    }

    /// An empty vector with room for `capacity` items, aligned to a cache line.
    pub fn with_capacity_cache_aligned(capacity: usize) -> (r: Self)
        requires
            align_of::<T>() <= CACHE_LINE_SIZE,
            capacity * size_of::<T>() <= usize::MAX,
            valid_layout((capacity * size_of::<T>()) as usize, CACHE_LINE_SIZE),
        ensures
            r@ == Seq::<T>::empty(),
            r.spec_capacity() == capacity,
            r.spec_alignment() == CACHE_LINE_SIZE,
    {
        assert(vstd::arithmetic::power2::is_pow2(64)) by {
            vstd::arithmetic::power2::lemma2_to64();
            vstd::arithmetic::power2::is_pow2_equiv(64);
            assert(vstd::arithmetic::power2::pow2(6) == 64);
        }
        Self::with_capacity_aligned(capacity, CACHE_LINE_SIZE)
    }

    /// Appends an item; the vector must not be full.
    pub fn push(&mut self, value: T)
        requires
            old(self)@.len() < old(self).spec_capacity(),
        ensures
            final(self)@ == old(self)@.push(value),
            final(self).spec_capacity() == old(self).spec_capacity(),
            final(self).spec_alignment() == old(self).spec_alignment(),
    {
        self.items.push(value);
    }

    /// The items, in order.
    pub fn as_slice(&self) -> (r: &[T])
        ensures
            r@ == self@,
    {
        self.items.as_slice()
    }

    /// Number of items.
    pub fn len(&self) -> (r: usize)
        ensures
            r == self@.len(),
    {
        self.items.len()
    }

    /// Whether there is no item.
    pub fn is_empty(&self) -> (r: bool)
        ensures
            r == (self@.len() == 0),
    {
        self.items.len() == 0
    }

    /// The fixed capacity.
    pub fn capacity(&self) -> (r: usize)
        ensures
            r == self.spec_capacity(),
    {
        self.capacity
    }

    /// Removes every item; the capacity stays.
    pub fn clear(&mut self)
        ensures
            final(self)@ == Seq::<T>::empty(),
            final(self).spec_capacity() == old(self).spec_capacity(),
            final(self).spec_alignment() == old(self).spec_alignment(),
    {
        self.items.clear();
    }
}

/// Computes route neighbours into cache-aligned buffers.
pub struct AlignedBatchProcessor {
    alignment: usize,
}

impl AlignedBatchProcessor {
    /// The alignment of the buffers.
    pub closed spec fn spec_alignment(&self) -> usize {
        self.alignment
    }

    /// A processor using cache-line alignment.
    pub fn new() -> (r: Self)
        ensures
            r.spec_alignment() == CACHE_LINE_SIZE,
    {
        Self { alignment: CACHE_LINE_SIZE }
    }

    /// The unchecked neighbours of every route, 14 per route, in order.
    pub fn batch_neighbors(&self, routes: &[Route64]) -> (r: Vec<Route64>)
        ensures
            route_values(r@) == batch_neighbors_spec(route_values(routes@)),
    {
        neighbors_of_all(routes)
    }
}

impl Default for AlignedBatchProcessor {
    fn default() -> (r: Self)
        ensures
            r.spec_alignment() == CACHE_LINE_SIZE,
    {
        Self::new()
    }
}

/// NUMA layout of the machine.
#[derive(Debug, Clone)]
pub struct NumaInfo {
    pub node_count: usize,
    pub current_node: usize,
}

impl NumaInfo {
    /// The NUMA layout; nodes are not queried, so this is one node, node 0.
    pub fn detect() -> (r: Self)
        ensures
            r.node_count == 1,
            r.current_node == 0,
    {
        Self { node_count: 1, current_node: 0 }
    }
}

/// Cache-line arithmetic on addresses.
pub struct MemoryAccessAnalyzer {
    cache_line_size: usize,
}

impl MemoryAccessAnalyzer {
    /// The cache line size it works with.
    pub closed spec fn spec_cache_line_size(&self) -> usize {
        self.cache_line_size
    }

    /// An analyzer for 64-byte cache lines.
    pub fn new() -> (r: Self)
        ensures
            r.spec_cache_line_size() == CACHE_LINE_SIZE,
    {
        Self { cache_line_size: CACHE_LINE_SIZE }
    }

    /// Number of `T`s that cover one cache line (rounded up); `T` must not
    /// be zero-sized.
    pub fn optimal_stride<T>(&self) -> (r: usize)
        requires
            size_of::<T>() > 0,
            self.spec_cache_line_size() == CACHE_LINE_SIZE,
        ensures
            r == (self.spec_cache_line_size() + size_of::<T>() - 1) / (size_of::<T>() as int),
    {
        vstd::layout::layout_for_type_is_valid::<T>();
        let type_size = core::mem::size_of::<T>();
        (self.cache_line_size + type_size - 1) / type_size
    }

    /// Whether the address is a multiple of `alignment`.
    pub fn is_aligned(&self, addr: usize, alignment: usize) -> (r: bool)
        requires
            alignment > 0,
        ensures
            r == (addr % alignment == 0),
    {
        addr % alignment == 0
    }

    /// Offset of the address within its cache line.
    pub fn cache_line_offset(&self, addr: usize) -> (r: usize)
        requires
            self.spec_cache_line_size() > 0,
        ensures
            r == addr % self.spec_cache_line_size(),
    {
        addr % self.cache_line_size
    }
}

impl Default for MemoryAccessAnalyzer {
    fn default() -> (r: Self)
        ensures
            r.spec_cache_line_size() == CACHE_LINE_SIZE,
    {
        Self::new()
    }
}

/// Hints the cache a fixed distance ahead of a sequential walk.
pub struct SequentialPrefetcher {
    distance: usize,
}

impl SequentialPrefetcher {
    /// How far ahead it looks.
    pub closed spec fn spec_distance(&self) -> usize {
        self.distance
    }

    /// A prefetcher looking `distance` items ahead.
    pub fn new(distance: usize) -> (r: Self)
        ensures
            r.spec_distance() == distance,
    {
        Self { distance }
    }

    /// Touches the item `distance` places after `index`, when there is one.
    /// Prefetching is only a hint: nothing observable changes.
    pub fn prefetch_ahead<T>(&self, data: &[T], index: usize) {
        if index < data.len() && self.distance < data.len() - index {
            let _ahead = &data[index + self.distance];
        }
    }
}

} // verus!
