//! Pluggable compression for the container formats: LZ4 (default), Zstd, or none.

use vstd::prelude::*;
use crate::bytes::copy_bytes;
use crate::error::{Error, Result};

verus! {

/// LZ4 codec identifier.
pub const CODEC_LZ4: u8 = 0;
/// Zstandard codec identifier.
pub const CODEC_ZSTD: u8 = 1;
/// Identifier of the pass-through codec.
pub const CODEC_NONE: u8 = 3;

/// What `lz4_flex::decompress_size_prepended` returns for the given bytes,
/// `None` where it fails.
pub uninterp spec fn lz4_decompressed(src: Seq<u8>) -> Option<Seq<u8>>;

/// What `zstd::stream::decode_all` returns for the given bytes, `None` where
/// it fails.
pub uninterp spec fn zstd_decompressed(src: Seq<u8>) -> Option<Seq<u8>>;

/// Calls `lz4_flex::compress_prepend_size`: LZ4 block compression with the
/// uncompressed length prepended as a little-endian u32. The contract states
/// the documented round trip: for an input whose length fits the prefix,
/// `decompress_size_prepended` gives the input back. The compressed bytes
/// themselves are not stated (the crate hashes differently on 32-bit and
/// 64-bit targets).
#[verifier::external_body]
fn lz4_compress_prepend_size(src: &[u8]) -> (r: Vec<u8>)
    ensures
        src@.len() <= u32::MAX ==> lz4_decompressed(r@) == Some(src@),
{
    lz4_flex::compress_prepend_size(src)
}

/// Calls `lz4_flex::decompress_size_prepended`; the error text is the crate's.
#[verifier::external_body]
fn lz4_decompress_size_prepended(src: &[u8]) -> (r: core::result::Result<Vec<u8>, String>)
    ensures
        (r is Ok) == (lz4_decompressed(src@) is Some),
        r matches Ok(v) ==> lz4_decompressed(src@) == Some(v@),
{
    match lz4_flex::decompress_size_prepended(src) {
        Ok(v) => Ok(v),
        Err(e) => Err(e.to_string()),
    }
}

/// Calls `zstd::bulk::compress` at the given level; the error text is zstd's.
/// The contract states the documented round trip: a frame it produced decodes
/// with `zstd::stream::decode_all` to the input. Neither the compressed
/// bytes nor when the call fails is stated.
#[verifier::external_body]
fn zstd_bulk_compress(src: &[u8], level: i32) -> (r: core::result::Result<Vec<u8>, String>)
    ensures
        r matches Ok(v) ==> zstd_decompressed(v@) == Some(src@),
{
    match zstd::bulk::compress(src, level) {
        Ok(v) => Ok(v),
        Err(e) => Err(e.to_string()),
    }
}

/// Calls `zstd::stream::decode_all` on the bytes; the error text is zstd's.
#[verifier::external_body]
fn zstd_decode_all(src: &[u8]) -> (r: core::result::Result<Vec<u8>, String>)
    ensures
        (r is Ok) == (zstd_decompressed(src@) is Some),
        r matches Ok(v) ==> zstd_decompressed(src@) == Some(v@),
{
    match zstd::stream::decode_all(src) {
        Ok(v) => Ok(v),
        Err(e) => Err(e.to_string()),
    }
}

/// `c` decodes to `d` with the decoder of the codec family with identifier
/// `id`.
pub open spec fn codec_encodes(id: u8, d: Seq<u8>, c: Seq<u8>) -> bool {
    if id == CODEC_LZ4 {
        d.len() <= u32::MAX && lz4_decompressed(c) == Some(d)
    } else if id == CODEC_ZSTD {
        zstd_decompressed(c) == Some(d)
    } else if id == CODEC_NONE {
        d == c
    } else {
        false
    }
}

/// The identifier is one of the codec families of this library.
pub open spec fn builtin_codec(id: u8) -> bool {
    id == CODEC_LZ4 || id == CODEC_ZSTD || id == CODEC_NONE
}

/// A compression codec: what its output decompresses to is bound by its
/// `decompressed`. A codec that takes the identifier of one of the library's
/// families must produce what that family's decoder reads back.
pub trait Compression {
    /// The codec identifier.
    spec fn codec(&self) -> u8;

    /// Compressing these bytes cannot fail.
    spec fn compress_owed(&self, src: Seq<u8>) -> bool;

    /// What `decompress` returns for the given bytes, `None` where it fails.
    spec fn decompressed(&self, src: Seq<u8>) -> Option<Seq<u8>>;

    /// Codec identifier.
    fn codec_id(&self) -> (r: u8)
        ensures
            r == self.codec(),
    ;

    /// Compresses the bytes; decompressing the result gives them back.
    fn compress(&self, src: &[u8]) -> (r: Result<Vec<u8>>)
        ensures
            self.compress_owed(src@) ==> r is Ok,
            r is Err ==> r matches Err(Error::Codec(_)),
            src@.len() <= u32::MAX ==> (r matches Ok(v) ==> self.decompressed(v@) == Some(src@)),
            src@.len() <= u32::MAX && builtin_codec(self.codec()) ==> (r matches Ok(v) ==> codec_encodes(
                self.codec(),
                src@,
                v@,
            )),
    ;

    /// Decompresses the bytes; what any codec of the same family produced
    /// comes back unchanged.
    fn decompress(&self, src: &[u8]) -> (r: Result<Vec<u8>>)
        ensures
            self.decompressed(src@) matches Some(d) ==> (r matches Ok(v) && v@ == d),
            self.decompressed(src@) is None ==> r matches Err(Error::Codec(_)),
            forall|d: Seq<u8>|
                #[trigger] codec_encodes(self.codec(), d, src@) ==> self.decompressed(src@) == Some(d),
    ;
}

/// LZ4 compression.
#[derive(Debug, Clone, Copy)]
pub struct Lz4Compression;

impl Compression for Lz4Compression {
    open spec fn codec(&self) -> u8 {
        CODEC_LZ4
    }

    open spec fn compress_owed(&self, src: Seq<u8>) -> bool {
        true
    }

    open spec fn decompressed(&self, src: Seq<u8>) -> Option<Seq<u8>> {
        lz4_decompressed(src)
    }

    fn codec_id(&self) -> (r: u8) {
        CODEC_LZ4
    }

    fn compress(&self, src: &[u8]) -> (r: Result<Vec<u8>>) {
        Ok(lz4_compress_prepend_size(src))
    }

    fn decompress(&self, src: &[u8]) -> (r: Result<Vec<u8>>) {
        match lz4_decompress_size_prepended(src) {
            Ok(v) => Ok(v),
            Err(e) => Err(Error::Codec(e)),
        }
    }
}

/// Zstandard compression at a given level.
#[derive(Debug, Clone, Copy)]
pub struct ZstdCompression {
    level: i32,
}

impl ZstdCompression {
    /// Zstd with the default level 5.
    pub fn new() -> (r: Self)
        ensures
            r.level() == 5,
    {
        Self { level: 5 }
    }

    /// Zstd with a custom level.
    pub fn with_level(level: i32) -> (r: Self)
        ensures
            r.level() == level,
    {
        Self { level }
    }

    /// The compression level.
    pub closed spec fn level(&self) -> i32 {
        self.level
    }
}

impl Default for ZstdCompression {
    fn default() -> (r: Self)
        ensures
            r.level() == 5,
    {
        Self::new()
    }
}

impl Compression for ZstdCompression {
    open spec fn codec(&self) -> u8 {
        CODEC_ZSTD
    }

    open spec fn compress_owed(&self, src: Seq<u8>) -> bool {
        false
    }

    open spec fn decompressed(&self, src: Seq<u8>) -> Option<Seq<u8>> {
        zstd_decompressed(src)
    }

    fn codec_id(&self) -> (r: u8) {
        CODEC_ZSTD
    }

    fn compress(&self, src: &[u8]) -> (r: Result<Vec<u8>>) {
        match zstd_bulk_compress(src, self.level) {
            Ok(v) => Ok(v),
            Err(e) => Err(Error::Codec(e)),
        }
    }

    fn decompress(&self, src: &[u8]) -> (r: Result<Vec<u8>>) {
        match zstd_decode_all(src) {
            Ok(v) => Ok(v),
            Err(e) => Err(Error::Codec(e)),
        }
    }
}

/// Pass-through: the bytes are stored as they are.
#[derive(Debug, Clone, Copy)]
pub struct NoCompression;

impl Compression for NoCompression {
    open spec fn codec(&self) -> u8 {
        CODEC_NONE
    }

    open spec fn compress_owed(&self, src: Seq<u8>) -> bool {
        true
    }

    open spec fn decompressed(&self, src: Seq<u8>) -> Option<Seq<u8>> {
        Some(src)
    }


    fn codec_id(&self) -> (r: u8) {
        CODEC_NONE
    }

    fn compress(&self, src: &[u8]) -> (r: Result<Vec<u8>>)
        ensures
            r matches Ok(v) && v@ == src@,
    {
        Ok(copy_bytes(src))
    }

    fn decompress(&self, src: &[u8]) -> (r: Result<Vec<u8>>) {
        Ok(copy_bytes(src))
    }
}

/// One of the available codecs, chosen at run time.
#[derive(Debug, Clone, Copy)]
pub enum Codec {
    /// LZ4.
    Lz4(Lz4Compression),
    /// Zstandard.
    Zstd(ZstdCompression),
    /// Pass-through.
    Stored(NoCompression),
}

impl Compression for Codec {
    open spec fn codec(&self) -> u8 {
        match self {
            Codec::Lz4(c) => c.codec(),
            Codec::Zstd(c) => c.codec(),
            Codec::Stored(c) => c.codec(),
        }
    }

    open spec fn compress_owed(&self, src: Seq<u8>) -> bool {
        match self {
            Codec::Lz4(c) => c.compress_owed(src),
            Codec::Zstd(c) => c.compress_owed(src),
            Codec::Stored(c) => c.compress_owed(src),
        }
    }

    open spec fn decompressed(&self, src: Seq<u8>) -> Option<Seq<u8>> {
        match self {
            Codec::Lz4(c) => c.decompressed(src),
            Codec::Zstd(c) => c.decompressed(src),
            Codec::Stored(c) => c.decompressed(src),
        }
    }


    fn codec_id(&self) -> (r: u8) {
        match self {
            Codec::Lz4(c) => c.codec_id(),
            Codec::Zstd(c) => c.codec_id(),
            Codec::Stored(c) => c.codec_id(),
        }
    }

    fn compress(&self, src: &[u8]) -> (r: Result<Vec<u8>>)
        ensures
            self is Stored ==> (r matches Ok(v) && v@ == src@),
    {
        match self {
            Codec::Lz4(c) => c.compress(src),
            Codec::Zstd(c) => c.compress(src),
            Codec::Stored(c) => c.compress(src),
        }
    }

    fn decompress(&self, src: &[u8]) -> (r: Result<Vec<u8>>) {
        match self {
            Codec::Lz4(c) => c.decompress(src),
            Codec::Zstd(c) => c.decompress(src),
            Codec::Stored(c) => c.decompress(src),
        }
    }
}

/// Round trip: bytes that a codec of one of the library's families made from
/// `d` (as `compress` states for inputs that fit a `u32` length) are what the
/// codec's own `decompress` gives back `d` for.
pub proof fn lemma_codec_round_trip(c: Codec, d: Seq<u8>, v: Seq<u8>)
    requires
        codec_encodes(c.codec(), d, v),
    ensures
        c.decompressed(v) == Some(d),
{
}

/// The default codec: LZ4.
pub fn default_compression() -> (r: Codec)
    ensures
        r == Codec::Lz4(Lz4Compression),
{
    Codec::Lz4(Lz4Compression)
}

/// The codec with the given identifier.
pub fn get_compression(codec_id: u8) -> (r: Result<Codec>)
    ensures
        codec_id == CODEC_LZ4 ==> r == Ok::<Codec, Error>(Codec::Lz4(Lz4Compression)),
        codec_id == CODEC_ZSTD ==> (r matches Ok(Codec::Zstd(z)) && z.level() == 5),
        codec_id == CODEC_NONE ==> r == Ok::<Codec, Error>(Codec::Stored(NoCompression)),
        codec_id != CODEC_LZ4 && codec_id != CODEC_ZSTD && codec_id != CODEC_NONE ==> r
            == Err::<Codec, Error>(Error::UnsupportedCodec(codec_id)),
        r matches Ok(c) ==> c.codec() == codec_id,
{
    if codec_id == CODEC_LZ4 {
        Ok(Codec::Lz4(Lz4Compression))
    } else if codec_id == CODEC_ZSTD {
        Ok(Codec::Zstd(ZstdCompression::new()))
    } else if codec_id == CODEC_NONE {
        Ok(Codec::Stored(NoCompression))
    } else {
        Err(Error::UnsupportedCodec(codec_id))
    }
}

} // verus!
