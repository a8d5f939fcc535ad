//! Error type shared by every module of the library.

use vstd::prelude::*;

verus! {

/// Result type alias for library operations.
pub type Result<T> = core::result::Result<T, Error>;

/// Main error type.
#[derive(Debug, Clone, PartialEq)]
pub enum Error {
    /// Coordinates do not all have the same parity.
    InvalidParity { x: i32, y: i32, z: i32 },
    /// Coordinate value out of valid range.
    OutOfRange(String),
    /// Coordinate does not fit in the given number of signed bits.
    CoordinateOutOfRange { coord: i32, bits: u8 },
    /// Coordinate overflow during arithmetic.
    CoordinateOverflow,
    /// Invalid frame identifier.
    InvalidFrameID(u8),
    /// A different frame is already registered under this identifier.
    FrameConflict(u8),
    /// Invalid level of detail.
    InvalidLOD(String),
    /// Invalid scale tier.
    InvalidScaleTier(String),
    /// Bech32 encoding or decoding failed.
    InvalidBech32 { kind: String },
    /// Unsupported compression codec.
    UnsupportedCodec(u8),
    /// Compression or decompression failed.
    Codec(String),
    /// Input/output failure.
    Io(String),
    /// Malformed container bytes.
    InvalidFormat(String),
    /// CRC-32 checksum mismatch.
    CrcMismatch { expected: u32, actual: u32 },
    /// Stored cell checksum differs from the recomputed one.
    ChecksumMismatch { expected: u8, actual: u8 },
    /// No parent cell available.
    NoParent,
    /// No child cells available.
    NoChildren,
    /// Invalid Morton encoding.
    InvalidMorton(String),
    /// Pathfinding failure.
    Pathfinding(String),
    /// No path between two cells.
    NoPathFound { start: String, goal: String },
    /// Search expanded more nodes than allowed.
    SearchLimitExceeded { expansions: usize, limit: usize },
    /// Invalid aggregation operation.
    InvalidAggregation(String),
    /// Input/output failure (older variant).
    IoError(String),
    /// Bech32m failure (older variant).
    Bech32Error(String),
    /// Cell identifier could not be decoded.
    DecodingError(String),
    /// Cell identifier could not be encoded.
    EncodingError(String),
    /// Unknown container version.
    InvalidContainerVersion(u8),
    /// No footer found while recovering a container.
    FooterNotFound,
    /// Table of contents is corrupt.
    TocCorrupt(String),
    /// SHA-256 digest mismatch.
    Sha256Mismatch,
}

} // verus!
