//! Append-friendly container format (version 2): a 32-byte stream header,
//! frames with their own 16-byte headers, and checkpoints made of a table of
//! contents (32 bytes per frame) and a 32-byte footer.

use vstd::prelude::*;
use crate::bytes::{
    be_bytes_u32, be_bytes_u64, extend_bytes, lemma_u32_be_roundtrip, lemma_u64_be_roundtrip,
    u32_from_be, u32_from_be_slice, u32_to_be_bytes, u64_from_be, u64_from_be_slice, u64_to_be_bytes,
};
use crate::compression::{codec_encodes, Codec, Compression, Lz4Compression};
use crate::container::crc32_of;
use crate::error::{Error, Result};

verus! {

/// Format version of the stream header.
pub const FORMAT_VERSION_V2: u8 = 2;

/// The magic bytes `OCTA3D2\0`.
pub open spec fn magic_v2() -> Seq<u8> {
    seq![0x4Fu8, 0x43u8, 0x54u8, 0x41u8, 0x33u8, 0x44u8, 0x32u8, 0x00u8]
}

/// The system clock in nanoseconds since the Unix epoch, read with
/// `SystemTime::now().duration_since(UNIX_EPOCH)`; 0 for a clock set before
/// the epoch. Nothing is stated of the value: it depends on the clock.
#[verifier::external_body]
pub(crate) fn unix_time_nanos() -> (r: u64) {
    match std::time::SystemTime::now().duration_since(std::time::UNIX_EPOCH) {
        Ok(d) => d.as_nanos() as u64,
        Err(_) => 0,
    }
}

/// Stream configuration.
#[derive(Debug, Clone, Copy)]
pub struct StreamConfig {
    /// Write a checkpoint every this many frames.
    pub checkpoint_frames: usize,
    /// Write a checkpoint once this many compressed bytes were written since the last one.
    pub checkpoint_bytes: usize,
    /// Append a SHA-256 digest of the uncompressed data to every frame.
    pub enable_sha256: bool,
}

impl Default for StreamConfig {
    fn default() -> (r: Self)
        ensures
            r.checkpoint_frames == 1000,
            r.checkpoint_bytes == 67108864,
            !r.enable_sha256,
    {
        Self { checkpoint_frames: 1000, checkpoint_bytes: 67108864, enable_sha256: false }
    }
}

/// Stream header (32 bytes).
#[derive(Debug, Clone, Copy, PartialEq, Eq, Structural)]
pub struct HeaderV2 {
    /// Format version.
    pub format_version: u8,
    /// Flags; bit 0 enables SHA-256 digests.
    pub flags: u8,
    /// Stream identifier.
    pub stream_id: u64,
    /// Offset of the first frame.
    pub first_frame_offset: u64,
}

/// The 32 bytes of a stream header.
pub open spec fn header_v2_bytes(h: HeaderV2) -> Seq<u8> {
    magic_v2() + seq![h.format_version, h.flags, 0u8, 0u8, 0u8, 0u8, 0u8, 0u8] + be_bytes_u64(h.stream_id) + be_bytes_u64(h.first_frame_offset)
}

impl HeaderV2 {
    /// A header for a new stream, identified by the current time in
    /// nanoseconds since the Unix epoch.
    pub fn new(enable_sha256: bool) -> (r: Self)
        ensures
            r.format_version == FORMAT_VERSION_V2,
            r.flags == (if enable_sha256 { 1u8 } else { 0u8 }),
            r.first_frame_offset == 32,
    {
        Self::with_stream_id(enable_sha256, unix_time_nanos())
    }

    /// A header for a new stream with the given identifier (the time it was
    /// started, in nanoseconds since the Unix epoch).
    pub fn with_stream_id(enable_sha256: bool, stream_id: u64) -> (r: Self)
        ensures
            r.format_version == FORMAT_VERSION_V2,
            r.flags == (if enable_sha256 { 1u8 } else { 0u8 }),
            r.stream_id == stream_id,
            r.first_frame_offset == 32,
    {
        let flags = if enable_sha256 { 0x01 } else { 0x00 };
        Self { format_version: FORMAT_VERSION_V2, flags, stream_id, first_frame_offset: 32 }
    }

    /// Whether frames carry SHA-256 digests.
    pub fn has_sha256(&self) -> (r: bool)
        ensures
            r == (self.flags & 1 != 0),
    {
        (self.flags & 0x01) != 0
    }

    /// The 32 header bytes.
    pub fn to_bytes(&self) -> (r: [u8; 32])
        ensures
            r@ == header_v2_bytes(*self),
    {
        let sid = u64_to_be_bytes(self.stream_id);
        let off = u64_to_be_bytes(self.first_frame_offset);
        let r: [u8; 32] = [
            0x4F,
            0x43,
            0x54,
            0x41,
            0x33,
            0x44,
            0x32,
            0x00,
            self.format_version,
            self.flags,
            0,
            0,
            0,
            0,
            0,
            0,
            sid[0],
            sid[1],
            sid[2],
            sid[3],
            sid[4],
            sid[5],
            sid[6],
            sid[7],
            off[0],
            off[1],
            off[2],
            off[3],
            off[4],
            off[5],
            off[6],
            off[7],
        ];
        assert(r@ =~= header_v2_bytes(*self));
        r
    }

    /// Reads a header, checking the magic bytes.
    pub fn from_bytes(bytes: &[u8; 32]) -> (r: Result<Self>)
        ensures
            bytes@.subrange(0, 8) != magic_v2() ==> r matches Err(Error::InvalidFormat(_)),
            bytes@.subrange(0, 8) == magic_v2() ==> r == Ok::<HeaderV2, Error>(
                HeaderV2 {
                    format_version: bytes@[8],
                    flags: bytes@[9],
                    stream_id: u64_from_be(bytes@.subrange(16, 24)),
                    first_frame_offset: u64_from_be(bytes@.subrange(24, 32)),
                },
            ),
    {
        if !(bytes[0] == 0x4F && bytes[1] == 0x43 && bytes[2] == 0x54 && bytes[3] == 0x41 && bytes[4]
            == 0x33 && bytes[5] == 0x44 && bytes[6] == 0x32 && bytes[7] == 0x00) {
            proof {
                if bytes@.subrange(0, 8) == magic_v2() {
                    assert(bytes@.subrange(0, 8)[0] == bytes@[0]);
                    assert(bytes@.subrange(0, 8)[7] == bytes@[7]);
                    assert(bytes@.subrange(0, 8)[1] == bytes@[1]);
                    assert(bytes@.subrange(0, 8)[2] == bytes@[2]);
                    assert(bytes@.subrange(0, 8)[3] == bytes@[3]);
                    assert(bytes@.subrange(0, 8)[4] == bytes@[4]);
                    assert(bytes@.subrange(0, 8)[5] == bytes@[5]);
                    assert(bytes@.subrange(0, 8)[6] == bytes@[6]);
                }
            }
            return Err(Error::InvalidFormat("Invalid magic number".to_owned()));
        }
        assert(bytes@.subrange(0, 8) =~= magic_v2());
        Ok(
            Self {
                format_version: bytes[8],
                flags: bytes[9],
                stream_id: u64_from_be_slice(bytes, 16),
                first_frame_offset: u64_from_be_slice(bytes, 24),
            },
        )
    }
}

/// Reading back the bytes of a header gives the header.
pub proof fn lemma_header_v2_roundtrip(h: HeaderV2)
    ensures
        header_v2_bytes(h).subrange(0, 8) == magic_v2(),
        header_v2_bytes(h)[8] == h.format_version,
        header_v2_bytes(h)[9] == h.flags,
        u64_from_be(header_v2_bytes(h).subrange(16, 24)) == h.stream_id,
        u64_from_be(header_v2_bytes(h).subrange(24, 32)) == h.first_frame_offset,
{
    let b = header_v2_bytes(h);
    assert(b.subrange(0, 8) =~= magic_v2());
    assert(b.subrange(16, 24) =~= be_bytes_u64(h.stream_id));
    assert(b.subrange(24, 32) =~= be_bytes_u64(h.first_frame_offset));
    lemma_u64_be_roundtrip(h.stream_id);
    lemma_u64_be_roundtrip(h.first_frame_offset);
}

/// Table-of-contents entry (32 bytes).
#[derive(Debug, Clone, Copy, PartialEq, Eq, Structural)]
pub struct TocEntry {
    /// Offset of the frame in the stream.
    pub offset: u64,
    /// Uncompressed length.
    pub uncompressed_len: u32,
    /// Compressed length.
    pub compressed_len: u32,
    /// Codec identifier.
    pub codec: u8,
    /// Graph identifier.
    pub graph: u8,
    /// Level of detail.
    pub lod: u8,
    /// Scale tier.
    pub tier: u8,
    /// Sequence number.
    pub seq: u64,
}

/// The 32 bytes of a table-of-contents entry.
pub open spec fn toc_entry_bytes(e: TocEntry) -> Seq<u8> {
    be_bytes_u64(e.offset) + be_bytes_u32(e.uncompressed_len) + be_bytes_u32(e.compressed_len) + seq![
        e.codec,
        e.graph,
        e.lod,
        e.tier,
    ] + be_bytes_u64(e.seq) + seq![0u8, 0u8, 0u8, 0u8]
}

/// The entry read from 32 bytes.
pub open spec fn toc_entry_at(b: Seq<u8>) -> TocEntry {
    TocEntry {
        offset: u64_from_be(b.subrange(0, 8)),
        uncompressed_len: u32_from_be(b.subrange(8, 12)),
        compressed_len: u32_from_be(b.subrange(12, 16)),
        codec: b[16],
        graph: b[17],
        lod: b[18],
        tier: b[19],
        seq: u64_from_be(b.subrange(20, 28)),
    }
}

impl TocEntry {
    /// The 32 entry bytes.
    pub fn to_bytes(&self) -> (r: [u8; 32])
        ensures
            r@ == toc_entry_bytes(*self),
    {
        let off = u64_to_be_bytes(self.offset);
        let unc = u32_to_be_bytes(self.uncompressed_len);
        let comp = u32_to_be_bytes(self.compressed_len);
        let sq = u64_to_be_bytes(self.seq);
        let r: [u8; 32] = [
            off[0],
            off[1],
            off[2],
            off[3],
            off[4],
            off[5],
            off[6],
            off[7],
            unc[0],
            unc[1],
            unc[2],
            unc[3],
            comp[0],
            comp[1],
            comp[2],
            comp[3],
            self.codec,
            self.graph,
            self.lod,
            self.tier,
            sq[0],
            sq[1],
            sq[2],
            sq[3],
            sq[4],
            sq[5],
            sq[6],
            sq[7],
            0,
            0,
            0,
            0,
        ];
        assert(r@ =~= toc_entry_bytes(*self));
        r
    }

    /// Reads an entry.
    pub fn from_bytes(bytes: &[u8; 32]) -> (r: Self)
        ensures
            r == toc_entry_at(bytes@),
    {
        Self {
            offset: u64_from_be_slice(bytes, 0),
            uncompressed_len: u32_from_be_slice(bytes, 8),
            compressed_len: u32_from_be_slice(bytes, 12),
            codec: bytes[16],
            graph: bytes[17],
            lod: bytes[18],
            tier: bytes[19],
            seq: u64_from_be_slice(bytes, 20),
        }
    }
}

/// Reading back the bytes of an entry gives the entry.
pub proof fn lemma_toc_entry_roundtrip(e: TocEntry)
    ensures
        toc_entry_at(toc_entry_bytes(e)) == e,
{
    let b = toc_entry_bytes(e);
    assert(b.subrange(0, 8) =~= be_bytes_u64(e.offset));
    assert(b.subrange(8, 12) =~= be_bytes_u32(e.uncompressed_len));
    assert(b.subrange(12, 16) =~= be_bytes_u32(e.compressed_len));
    assert(b.subrange(20, 28) =~= be_bytes_u64(e.seq));
    lemma_u64_be_roundtrip(e.offset);
    lemma_u32_be_roundtrip(e.uncompressed_len);
    lemma_u32_be_roundtrip(e.compressed_len);
    lemma_u64_be_roundtrip(e.seq);
}

/// Footer (32 bytes).
#[derive(Debug, Clone, Copy, PartialEq, Eq, Structural)]
pub struct Footer {
    /// Offset of the table of contents.
    pub toc_offset: u64,
    /// Length of the table of contents in bytes.
    pub toc_len: u64,
    /// Number of entries.
    pub entry_count: u64,
    /// Copy of the header flags.
    pub flags_copy: u64,
}

/// The 32 bytes of a footer.
pub open spec fn footer_bytes(f: Footer) -> Seq<u8> {
    be_bytes_u64(f.toc_offset) + be_bytes_u64(f.toc_len) + be_bytes_u64(f.entry_count) + be_bytes_u64(f.flags_copy)
}

/// The footer read from 32 bytes.
pub open spec fn footer_at(b: Seq<u8>) -> Footer {
    Footer {
        toc_offset: u64_from_be(b.subrange(0, 8)),
        toc_len: u64_from_be(b.subrange(8, 16)),
        entry_count: u64_from_be(b.subrange(16, 24)),
        flags_copy: u64_from_be(b.subrange(24, 32)),
    }
}

impl Footer {
    /// The 32 footer bytes.
    pub fn to_bytes(&self) -> (r: [u8; 32])
        ensures
            r@ == footer_bytes(*self),
    {
        let a = u64_to_be_bytes(self.toc_offset);
        let b = u64_to_be_bytes(self.toc_len);
        let c = u64_to_be_bytes(self.entry_count);
        let d = u64_to_be_bytes(self.flags_copy);
        let r: [u8; 32] = [
            a[0],
            a[1],
            a[2],
            a[3],
            a[4],
            a[5],
            a[6],
            a[7],
            b[0],
            b[1],
            b[2],
            b[3],
            b[4],
            b[5],
            b[6],
            b[7],
            c[0],
            c[1],
            c[2],
            c[3],
            c[4],
            c[5],
            c[6],
            c[7],
            d[0],
            d[1],
            d[2],
            d[3],
            d[4],
            d[5],
            d[6],
            d[7],
        ];
        assert(r@ =~= footer_bytes(*self));
        r
    }

    /// Reads a footer.
    pub fn from_bytes(bytes: &[u8; 32]) -> (r: Self)
        ensures
            r == footer_at(bytes@),
    {
        Self {
            toc_offset: u64_from_be_slice(bytes, 0),
            toc_len: u64_from_be_slice(bytes, 8),
            entry_count: u64_from_be_slice(bytes, 16),
            flags_copy: u64_from_be_slice(bytes, 24),
        }
    }
}

/// Reading back the bytes of a footer gives the footer.
pub proof fn lemma_footer_roundtrip(f: Footer)
    ensures
        footer_at(footer_bytes(f)) == f,
{
    let b = footer_bytes(f);
    assert(b.subrange(0, 8) =~= be_bytes_u64(f.toc_offset));
    assert(b.subrange(8, 16) =~= be_bytes_u64(f.toc_len));
    assert(b.subrange(16, 24) =~= be_bytes_u64(f.entry_count));
    assert(b.subrange(24, 32) =~= be_bytes_u64(f.flags_copy));
    lemma_u64_be_roundtrip(f.toc_offset);
    lemma_u64_be_roundtrip(f.toc_len);
    lemma_u64_be_roundtrip(f.entry_count);
    lemma_u64_be_roundtrip(f.flags_copy);
}

/// SHA-256 digest (32 bytes) as `sha2::Sha256::digest` computes it.
pub uninterp spec fn sha256_digest(data: Seq<u8>) -> Seq<u8>;

/// Calls `sha2::Sha256::digest` on the bytes.
#[verifier::external_body]
fn sha256(data: &[u8]) -> (r: [u8; 32])
    ensures
        r@ == sha256_digest(data@),
{
    <sha2::Sha256 as sha2::Digest>::digest(data).into()
}

/// The 16-byte header written before each frame.
pub open spec fn frame_header_v2(codec: u8, uncompressed_len: u32, compressed_len: u32, crc: u32) -> Seq<u8> {
    seq![codec, 0u8, 0u8, 0u8] + be_bytes_u32(uncompressed_len) + be_bytes_u32(compressed_len)
        + be_bytes_u32(crc)
}

/// All entries of a table of contents, back to back.
pub open spec fn toc_bytes(toc: Seq<TocEntry>) -> Seq<u8>
    decreases toc.len(),
{
    if toc.len() == 0 {
        Seq::empty()
    } else {
        toc_bytes(toc.drop_last()) + toc_entry_bytes(toc.last())
    }
}

/// A checkpoint written at offset `at`: the table of contents and a footer.
pub open spec fn checkpoint_bytes(toc: Seq<TocEntry>, at: int, flags: u8) -> Seq<u8> {
    toc_bytes(toc) + footer_bytes(
        Footer {
            toc_offset: at as u64,
            toc_len: (toc.len() * 32) as u64,
            entry_count: toc.len() as u64,
            flags_copy: flags as u64,
        },
    )
}

/// Upper bound on table-of-contents entries (keeps the byte length in 64 bits).
pub open spec fn max_toc_entries() -> int {
    0x0100_0000_0000_0000
}

/// `w1` is the writer `w0` after appending the frame `data`, compressed to
/// `c`: its record (header, payload, digest when enabled) follows the bytes so
/// far, its table-of-contents entry is added, and a checkpoint follows when
/// the configured number of frames or compressed bytes has been written
/// since the last one.
pub open spec fn frame_appended(w0: ContainerWriterV2, w1: ContainerWriterV2, data: Seq<u8>, c: Seq<u8>) -> bool {
    ({
                let entry = TocEntry {
                    offset: w0.bytes().len() as u64,
                    uncompressed_len: data.len() as u32,
                    compressed_len: c.len() as u32,
                    codec: w0.codec().codec(),
                    graph: 0,
                    lod: 0,
                    tier: 0,
                    seq: w0.seq(),
                };
                let record = frame_header_v2(entry.codec, entry.uncompressed_len, entry.compressed_len, crc32_of(c))
                    + c + (if w0.header().flags & 1 != 0 { sha256_digest(data) } else { Seq::empty() });
                let written = w0.bytes() + record;
                let toc = w0.toc().push(entry);
                let pending = w0.pending() + (c.len() as u32) as int;
                let pending = if pending > usize::MAX { usize::MAX as int } else { pending };
                let frames = w0.pending_frames() + 1;
                let frames = if frames > u64::MAX { u64::MAX as int } else { frames };
                &&& w1.toc() == toc
                &&& w1.seq() == w0.seq() + 1
                &&& if frames >= w0.config().checkpoint_frames || pending >= w0.config().checkpoint_bytes {
                    w1.bytes() == written + checkpoint_bytes(toc, written.len() as int, w0.header().flags)
                        && w1.pending() == 0 && w1.pending_frames() == 0
                } else {
                    w1.bytes() == written && w1.pending() == pending
                        && w1.pending_frames() == frames
                }
            })
}

/// Container v2 writer: the stream bytes accumulate in memory.
pub struct ContainerWriterV2 {
    out: Vec<u8>,
    config: StreamConfig,
    header: HeaderV2,
    compression: Codec,
    toc_entries: Vec<TocEntry>,
    bytes_since_checkpoint: usize,
    frames_since_checkpoint: u64,
    next_seq: u64,
}

impl ContainerWriterV2 {
    /// The stream bytes so far.
    pub closed spec fn bytes(&self) -> Seq<u8> {
        self.out@
    }

    /// The table of contents so far.
    pub closed spec fn toc(&self) -> Seq<TocEntry> {
        self.toc_entries@
    }

    /// The stream header.
    pub closed spec fn header(&self) -> HeaderV2 {
        self.header
    }

    /// The configuration.
    pub closed spec fn config(&self) -> StreamConfig {
        self.config
    }

    /// The codec in use.
    pub closed spec fn codec(&self) -> Codec {
        self.compression
    }

    /// Compressed bytes written since the last checkpoint.
    pub closed spec fn pending(&self) -> int {
        self.bytes_since_checkpoint as int
    }

    /// Frames written since the last checkpoint.
    pub closed spec fn pending_frames(&self) -> int {
        self.frames_since_checkpoint as int
    }

    /// Sequence number of the next frame.
    pub closed spec fn seq(&self) -> u64 {
        self.next_seq
    }

    /// Another frame fits: the sequence number and the table of contents have room.
    pub open spec fn can_append(&self) -> bool {
        self.seq() < u64::MAX && self.toc().len() + 1 < max_toc_entries()
    }

    /// Starts a stream: writes the stream header.
    pub fn new(config: StreamConfig) -> (r: Result<Self>)
        ensures
            r matches Ok(w) && w.bytes() == header_v2_bytes(w.header()) && w.header().format_version
                == FORMAT_VERSION_V2 && w.header().flags == (if config.enable_sha256 { 1u8 } else { 0u8 })
                && w.header().first_frame_offset == 32 && w.toc() == Seq::<TocEntry>::empty()
                && w.codec() == Codec::Lz4(Lz4Compression) && w.config() == config && w.pending()
                == 0 && w.pending_frames() == 0 && w.seq() == 0,
    {
        let header = HeaderV2::new(config.enable_sha256);
        let mut out: Vec<u8> = Vec::new();
        extend_bytes(&mut out, &header.to_bytes());
        Ok(
            Self {
                out,
                config,
                header,
                compression: Codec::Lz4(Lz4Compression),
                toc_entries: Vec::new(),
                bytes_since_checkpoint: 0,
                frames_since_checkpoint: 0,
                next_seq: 0,
            },
        )
    }

    /// Replaces the codec.
    pub fn with_compression(self, compression: Codec) -> (r: Result<Self>)
        ensures
            r matches Ok(w) && w.codec() == compression && w.bytes() == self.bytes() && w.toc()
                == self.toc() && w.header() == self.header() && w.config() == self.config()
                && w.pending() == self.pending() && w.pending_frames() == self.pending_frames()
                && w.seq() == self.seq(),
    {
        let mut w = self;
        w.compression = compression;
        Ok(w)
    }

    /// Compresses and appends one frame, then writes a checkpoint when the
    /// configured number of frames or of compressed bytes has been written
    /// since the last checkpoint.
    pub fn write_frame(&mut self, data: &[u8]) -> (r: Result<()>)
        requires
            old(self).can_append(),
        ensures
            final(self).header() == old(self).header(),
            final(self).config() == old(self).config(),
            final(self).codec() == old(self).codec(),
            old(self).codec().compress_owed(data@) ==> r is Ok,
            r is Err ==> (r matches Err(Error::Codec(_)) && final(self).bytes() == old(self).bytes()
                && final(self).toc() == old(self).toc() && final(self).pending() == old(self).pending()
                && final(self).pending_frames() == old(self).pending_frames() && final(self).seq() == old(self).seq()),
            r is Ok ==> exists|c: Seq<u8>|
                #[trigger] frame_appended(*old(self), *final(self), data@, c) && (data@.len() <= u32::MAX
                    ==> codec_encodes(old(self).codec().codec(), data@, c)) && (old(self).codec() is Stored ==> c
                    == data@),
    {
        let ghost w0 = *self;
        let uncompressed_len = data.len() as u32;
        let offset = self.out.len() as u64;
        let digest: Option<[u8; 32]> = if self.header.has_sha256() {
            Some(sha256(data))
        } else {
            None
        };
        let compressed = self.compression.compress(data)?;
        let compressed_len = compressed.len() as u32;
        let crc = crate::container::crc32_bytes(compressed.as_slice());
        let ghost start = self.out@;
        let codec = self.compression.codec_id();
        self.out.push(codec);
        self.out.push(0);
        self.out.push(0);
        self.out.push(0);
        extend_bytes(&mut self.out, &u32_to_be_bytes(uncompressed_len));
        extend_bytes(&mut self.out, &u32_to_be_bytes(compressed_len));
        extend_bytes(&mut self.out, &u32_to_be_bytes(crc));
        assert(self.out@ =~= start + frame_header_v2(codec, uncompressed_len, compressed_len, crc));
        extend_bytes(&mut self.out, compressed.as_slice());
        match digest {
            Some(h) => {
                extend_bytes(&mut self.out, &h);
            },
            None => {},
        }
        let entry = TocEntry {
            offset,
            uncompressed_len,
            compressed_len,
            codec,
            graph: 0,
            lod: 0,
            tier: 0,
            seq: self.next_seq,
        };
        self.toc_entries.push(entry);
        self.next_seq = self.next_seq + 1;
        self.bytes_since_checkpoint = self.bytes_since_checkpoint.saturating_add(compressed_len as usize);
        self.frames_since_checkpoint = self.frames_since_checkpoint.saturating_add(1);
        proof {
            let c = compressed@;
            let entry = TocEntry {
                offset: w0.bytes().len() as u64,
                uncompressed_len: data@.len() as u32,
                compressed_len: c.len() as u32,
                codec: w0.codec().codec(),
                graph: 0,
                lod: 0,
                tier: 0,
                seq: w0.seq(),
            };
            assert(entry == self.toc_entries@.last());
            assert(self.toc() == w0.toc().push(entry));
            assert(self.seq() == w0.seq() + 1);
            let record = frame_header_v2(entry.codec, entry.uncompressed_len, entry.compressed_len, crc32_of(c))
                + c + (if w0.header().flags & 1 != 0 { sha256_digest(data@) } else { Seq::empty() });
            let written = w0.bytes() + record;
            assert(start == w0.bytes());
            assert(self.out@ =~= written);
        }
        if self.frames_since_checkpoint as u128 >= self.config.checkpoint_frames as u128
            || self.bytes_since_checkpoint >= self.config.checkpoint_bytes {
            self.write_checkpoint();
        }
        assert(frame_appended(w0, *self, data@, compressed@));
        Ok(())
    }

    /// Writes the table of contents and a footer.
    fn write_checkpoint(&mut self)
        requires
            old(self).toc().len() < max_toc_entries(),
        ensures
            final(self).bytes() == old(self).bytes() + checkpoint_bytes(
                old(self).toc(),
                old(self).bytes().len() as int,
                old(self).header().flags,
            ),
            final(self).pending() == 0,
            final(self).pending_frames() == 0,
            final(self).toc() == old(self).toc(),
            final(self).seq() == old(self).seq(),
            final(self).header() == old(self).header(),
            final(self).config() == old(self).config(),
            final(self).codec() == old(self).codec(),
    {
        let toc_offset = self.out.len() as u64;
        let ghost start = self.out@;
        let ghost toc = self.toc_entries@;
        let mut i: usize = 0;
        while i < self.toc_entries.len()
            invariant
                i <= self.toc_entries.len(),
                toc == self.toc_entries@,
                toc == old(self).toc_entries@,
                start == old(self).out@,
                toc.len() < max_toc_entries(),
                self.next_seq == old(self).next_seq,
                self.header == old(self).header,
                self.config == old(self).config,
                self.compression == old(self).compression,
                self.out@ == start + toc_bytes(toc.take(i as int)),
            decreases self.toc_entries.len() - i,
        {
            let bytes = self.toc_entries[i].to_bytes();
            extend_bytes(&mut self.out, &bytes);
            proof {
                assert(toc.take(i + 1).drop_last() =~= toc.take(i as int));
            }
            i = i + 1;
        }
        assert(toc.take(toc.len() as int) =~= toc);
        let count = self.toc_entries.len() as u64;
        let footer = Footer {
            toc_offset,
            toc_len: count * 32,
            entry_count: count,
            flags_copy: self.header.flags as u64,
        };
        extend_bytes(&mut self.out, &footer.to_bytes());
        self.bytes_since_checkpoint = 0;
        self.frames_since_checkpoint = 0;
    }

    /// Writes a final checkpoint when any frame was written and returns the
    /// stream bytes.
    pub fn finish(self) -> (r: Result<Vec<u8>>)
        requires
            self.toc().len() < max_toc_entries(),
        ensures
            self.toc().len() == 0 ==> (r matches Ok(b) && b@ == self.bytes()),
            self.toc().len() > 0 ==> (r matches Ok(b) && b@ == self.bytes() + checkpoint_bytes(
                self.toc(),
                self.bytes().len() as int,
                self.header().flags,
            )),
    {
        let mut w = self;
        if w.toc_entries.len() > 0 {
            w.write_checkpoint();
        }
        Ok(w.out)
    }
}

} // verus!
