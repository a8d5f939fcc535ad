//! Storage methods of a compressed occupancy layer and its statistics.

use vstd::prelude::*;

verus! {

/// Compression method.
#[derive(Debug, Clone, Copy, PartialEq, Eq)]
pub enum CompressionMethod {
    /// No compression (raw storage).
    Raw,
    /// LZ4 fast compression.
    LZ4,
    /// Run-length encoding for sparse maps.
    RLE,
    /// Octree-based hierarchical compression.
    Octree,
}

/// Compression statistics.
#[derive(Debug)]
pub struct CompressionStats {
    /// Total number of compressed blocks.
    pub total_blocks: usize,
    /// Total compressed data size in bytes.
    pub compressed_bytes: usize,
    /// Original uncompressed size in bytes.
    pub uncompressed_bytes: usize,
    /// Number of blocks currently in cache.
    pub cached_blocks: usize,
}

} // verus!
