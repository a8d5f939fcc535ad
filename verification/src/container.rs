//! Container format for compressed spatial data.
//!
//! Layout: a 16-byte file header (magic `OCTA3D\0\0`, format version 1, flags,
//! big-endian frame count, 2 reserved bytes), then one 16-byte header per frame
//! (codec, codec version, graph, pad, big-endian uncompressed length,
//! compressed length and CRC-32 of the compressed bytes), then the compressed
//! frames back to back.

use vstd::prelude::*;
use crate::bytes::{
    be_bytes_u32, copy_bytes, extend_bytes, lemma_u32_be_roundtrip, u32_from_be,
    u32_from_be_slice, u32_to_be_bytes,
};
use crate::compression::{
    codec_encodes, default_compression, get_compression, lz4_decompressed, zstd_decompressed,
    Codec, Compression, Lz4Compression, CODEC_LZ4, CODEC_NONE, CODEC_ZSTD,
};
use crate::error::{Error, Result};
use crate::text::{numbered, numbered2};

verus! {

/// Format version written and accepted.
pub const FORMAT_VERSION: u8 = 1;
/// Largest number of frames in one container.
pub const MAX_FRAME_COUNT: u32 = 100000;
/// Largest compressed frame (64 MiB).
pub const MAX_COMPRESSED_FRAME_BYTES: u32 = 67108864;
/// Largest uncompressed frame (256 MiB).
pub const MAX_UNCOMPRESSED_FRAME_BYTES: u32 = 268435456;

/// The magic bytes `OCTA3D\0\0`.
pub open spec fn magic() -> Seq<u8> {
    seq![0x4Fu8, 0x43u8, 0x54u8, 0x41u8, 0x33u8, 0x44u8, 0u8, 0u8]
}

/// One shift round of the reflected CRC-32 with polynomial 0x04C11DB7.
pub open spec fn crc32_shift(c: u32) -> u32 {
    if c & 1 != 0 { (c >> 1u32) ^ 0xEDB8_8320 } else { c >> 1u32 }
}

/// `n` shift rounds.
pub open spec fn crc32_rounds(c: u32, n: nat) -> u32
    decreases n,
{
    if n == 0 { c } else { crc32_rounds(crc32_shift(c), (n - 1) as nat) }
}

/// The CRC-32 register after feeding the bytes, starting from all ones.
pub open spec fn crc32_register(data: Seq<u8>) -> u32
    decreases data.len(),
{
    if data.len() == 0 {
        0xFFFF_FFFF
    } else {
        crc32_rounds(crc32_register(data.drop_last()) ^ (data.last() as u32), 8)
    }
}

/// The CRC-32 (IEEE 802.3, as in zlib) of the bytes: the final register, inverted.
pub open spec fn crc32_of(data: Seq<u8>) -> u32 {
    crc32_register(data) ^ 0xFFFF_FFFF
}

/// Calls `crc32fast::hash`, which computes the CRC-32 (IEEE 802.3, as in
/// zlib) of the bytes.
#[verifier::external_body]
pub(crate) fn crc32_bytes(data: &[u8]) -> (r: u32)
    ensures
        r == crc32_of(data@),
{
    crc32fast::hash(data)
}

/// Metadata of one frame.
#[derive(Debug, Clone, Copy, PartialEq, Eq, Structural)]
pub struct FrameMetadata {
    /// Compression codec identifier.
    pub codec_id: u8,
    /// Codec version number.
    pub codec_vers: u8,
    /// Graph identifier of the frame.
    pub graph_id: u8,
    /// Uncompressed length in bytes.
    pub uncompressed_len: u32,
    /// Compressed length in bytes.
    pub compressed_len: u32,
    /// CRC-32 of the compressed bytes.
    pub crc32c: u32,
}

/// The 16 bytes of a frame header.
pub open spec fn meta_bytes(m: FrameMetadata) -> Seq<u8> {
    seq![m.codec_id, m.codec_vers, m.graph_id, 0u8] + be_bytes_u32(m.uncompressed_len) + be_bytes_u32(
        m.compressed_len,
    ) + be_bytes_u32(m.crc32c)
}

/// The frame header read from the 16 bytes at `off`.
pub open spec fn meta_at(b: Seq<u8>, off: int) -> FrameMetadata {
    FrameMetadata {
        codec_id: b[off],
        codec_vers: b[off + 1],
        graph_id: b[off + 2],
        uncompressed_len: u32_from_be(b.subrange(off + 4, off + 8)),
        compressed_len: u32_from_be(b.subrange(off + 8, off + 12)),
        crc32c: u32_from_be(b.subrange(off + 12, off + 16)),
    }
}

/// The frame lengths stay within the format's limits.
pub open spec fn meta_in_limits(m: FrameMetadata) -> bool {
    m.compressed_len <= MAX_COMPRESSED_FRAME_BYTES && m.uncompressed_len <= MAX_UNCOMPRESSED_FRAME_BYTES
}

/// The first `n` frame headers, or `Err(true)` where the bytes run out and
/// `Err(false)` where a header breaks the limits.
pub open spec fn parse_headers(b: Seq<u8>, n: nat) -> core::result::Result<Seq<FrameMetadata>, bool>
    decreases n,
{
    if n == 0 {
        Ok(Seq::empty())
    } else {
        match parse_headers(b, (n - 1) as nat) {
            Err(e) => Err(e),
            Ok(ms) => {
                let off = 16 + 16 * (n - 1);
                if b.len() < off + 16 {
                    Err(true)
                } else if !meta_in_limits(meta_at(b, off)) {
                    Err(false)
                } else {
                    Ok(ms.push(meta_at(b, off)))
                }
            },
        }
    }
}

/// What opening a container finds: its frame headers, or `Err(true)` where
/// the bytes run out and `Err(false)` where they break the format.
pub open spec fn parse_container(b: Seq<u8>) -> core::result::Result<Seq<FrameMetadata>, bool> {
    if b.len() < 8 {
        Err(true)
    } else if b.subrange(0, 8) != magic() {
        Err(false)
    } else if b.len() < 9 {
        Err(true)
    } else if b[8] != FORMAT_VERSION {
        Err(false)
    } else if b.len() < 14 {
        Err(true)
    } else if u32_from_be(b.subrange(10, 14)) > MAX_FRAME_COUNT {
        Err(false)
    } else if b.len() < 16 {
        Err(true)
    } else {
        parse_headers(b, u32_from_be(b.subrange(10, 14)) as nat)
    }
}

/// The 16-byte file header.
pub open spec fn file_header(count: u32) -> Seq<u8> {
    magic() + seq![FORMAT_VERSION, 0u8] + be_bytes_u32(count) + seq![0u8, 0u8]
}

/// All frame headers, in order.
pub open spec fn headers_bytes(ms: Seq<FrameMetadata>) -> Seq<u8>
    decreases ms.len(),
{
    if ms.len() == 0 {
        Seq::empty()
    } else {
        headers_bytes(ms.drop_last()) + meta_bytes(ms.last())
    }
}

/// All payloads, back to back.
pub open spec fn concat_payloads(ps: Seq<Seq<u8>>) -> Seq<u8>
    decreases ps.len(),
{
    if ps.len() == 0 {
        Seq::empty()
    } else {
        concat_payloads(ps.drop_last()) + ps.last()
    }
}

/// The bytes of a container holding the given frames.
pub open spec fn container_bytes(ms: Seq<FrameMetadata>, ps: Seq<Seq<u8>>) -> Seq<u8> {
    file_header(ms.len() as u32) + headers_bytes(ms) + concat_payloads(ps)
}

/// Total length of the first `i` payloads.
pub open spec fn payload_offset(ms: Seq<FrameMetadata>, i: int) -> int
    decreases i,
{
    if i <= 0 {
        0
    } else {
        payload_offset(ms, i - 1) + ms[i - 1].compressed_len
    }
}

/// Where the payload of frame `i` starts in the container.
pub open spec fn frame_offset(ms: Seq<FrameMetadata>, i: int) -> int {
    16 + 16 * ms.len() + payload_offset(ms, i)
}

/// A frame as the writer stores it: metadata, payload `p` compressed from `d`.
pub open spec fn frame_valid(m: FrameMetadata, p: Seq<u8>, d: Seq<u8>) -> bool {
    &&& m.compressed_len == p.len()
    &&& m.uncompressed_len == d.len()
    &&& meta_in_limits(m)
    &&& m.codec_vers == 0
    &&& m.graph_id == 0
    &&& m.crc32c == crc32_of(p)
    &&& codec_encodes(m.codec_id, d, p)
}

/// What the reader's codec for `id` makes of `c`, `None` where it fails or the
/// codec is unknown.
pub open spec fn decoded_by(id: u8, c: Seq<u8>) -> Option<Seq<u8>> {
    if id == CODEC_LZ4 {
        lz4_decompressed(c)
    } else if id == CODEC_ZSTD {
        zstd_decompressed(c)
    } else if id == CODEC_NONE {
        Some(c)
    } else {
        None
    }
}

proof fn lemma_headers_layout(ms: Seq<FrameMetadata>)
    ensures
        headers_bytes(ms).len() == 16 * ms.len(),
        forall|i: int|
            0 <= i < ms.len() ==> #[trigger] headers_bytes(ms).subrange(16 * i, 16 * i + 16)
                == meta_bytes(ms[i]),
    decreases ms.len(),
{
    if ms.len() > 0 {
        let init = ms.drop_last();
        lemma_headers_layout(init);
        let h = headers_bytes(ms);
        assert(h == headers_bytes(init) + meta_bytes(ms.last()));
        assert forall|i: int| 0 <= i < ms.len() implies #[trigger] h.subrange(16 * i, 16 * i + 16)
            == meta_bytes(ms[i]) by {
            if i < ms.len() - 1 {
                assert(h.subrange(16 * i, 16 * i + 16) =~= headers_bytes(init).subrange(
                    16 * i,
                    16 * i + 16,
                ));
                assert(init[i] == ms[i]);
            } else {
                assert(h.subrange(16 * i, 16 * i + 16) =~= meta_bytes(ms.last()));
            }
        }
    }
}

proof fn lemma_payloads_layout(ms: Seq<FrameMetadata>, ps: Seq<Seq<u8>>)
    requires
        ms.len() == ps.len(),
        forall|i: int| 0 <= i < ms.len() ==> ms[i].compressed_len == #[trigger] ps[i].len(),
    ensures
        concat_payloads(ps).len() == payload_offset(ms, ms.len() as int),
        forall|i: int|
            0 <= i < ms.len() ==> payload_offset(ms, i) + ms[i].compressed_len <= payload_offset(
                ms,
                ms.len() as int,
            ),
        forall|i: int|
            0 <= i < ms.len() ==> #[trigger] concat_payloads(ps).subrange(
                payload_offset(ms, i),
                payload_offset(ms, i) + ms[i].compressed_len,
            ) == ps[i],
    decreases ps.len(),
{
    if ps.len() > 0 {
        let n = ps.len() as int;
        let ms0 = ms.drop_last();
        let ps0 = ps.drop_last();
        assert forall|i: int| 0 <= i < ms0.len() implies ms0[i].compressed_len == #[trigger] ps0[i].len() by {
            assert(ms0[i] == ms[i] && ps0[i] == ps[i]);
        }
        lemma_payloads_layout(ms0, ps0);
        lemma_payload_offset_prefix(ms, ms0, n - 1);
        let c = concat_payloads(ps);
        assert(c == concat_payloads(ps0) + ps.last());
        assert forall|i: int| 0 <= i < ms.len() implies payload_offset(ms, i) + ms[i].compressed_len
            <= payload_offset(ms, n) by {
            if i < n - 1 {
                assert(ms0[i] == ms[i]);
                lemma_payload_offset_prefix(ms, ms0, i);
                lemma_payload_offset_prefix(ms, ms0, i + 1);
                lemma_payload_offset_mono(ms0, i + 1, n - 1);
            }
        }
        assert forall|i: int| 0 <= i < ms.len() implies #[trigger] c.subrange(
            payload_offset(ms, i),
            payload_offset(ms, i) + ms[i].compressed_len,
        ) == ps[i] by {
            if i < n - 1 {
                assert(ms0[i] == ms[i] && ps0[i] == ps[i]);
                lemma_payload_offset_prefix(ms, ms0, i);
                assert(payload_offset(ms0, i) + ms0[i].compressed_len <= payload_offset(ms0, n - 1));
                lemma_payload_offset_mono(ms0, 0, i);
                assert(c.subrange(payload_offset(ms, i), payload_offset(ms, i) + ms[i].compressed_len)
                    =~= concat_payloads(ps0).subrange(
                    payload_offset(ms0, i),
                    payload_offset(ms0, i) + ms0[i].compressed_len,
                ));
            } else {
                assert(c.subrange(payload_offset(ms, i), payload_offset(ms, i) + ms[i].compressed_len)
                    =~= ps.last());
            }
        }
    }
}

proof fn lemma_payload_offset_prefix(ms: Seq<FrameMetadata>, ms0: Seq<FrameMetadata>, i: int)
    requires
        ms0.len() <= ms.len(),
        forall|j: int| 0 <= j < ms0.len() ==> ms0[j] == ms[j],
        0 <= i <= ms0.len(),
    ensures
        payload_offset(ms, i) == payload_offset(ms0, i),
    decreases i,
{
    if i > 0 {
        lemma_payload_offset_prefix(ms, ms0, i - 1);
    }
}

proof fn lemma_payload_offset_mono(ms: Seq<FrameMetadata>, i: int, j: int)
    requires
        0 <= i <= j,
    ensures
        payload_offset(ms, i) <= payload_offset(ms, j),
    decreases j,
{
    if i < j {
        lemma_payload_offset_mono(ms, i, j - 1);
    }
}

proof fn lemma_meta_bytes_read_back(b: Seq<u8>, off: int, m: FrameMetadata)
    requires
        0 <= off,
        off + 16 <= b.len(),
        b.subrange(off, off + 16) == meta_bytes(m),
    ensures
        meta_at(b, off) == m,
{
    let mb = meta_bytes(m);
    assert(b[off] == mb[0] && b[off + 1] == mb[1] && b[off + 2] == mb[2]) by {
        assert(b.subrange(off, off + 16)[0] == b[off]);
        assert(b.subrange(off, off + 16)[1] == b[off + 1]);
        assert(b.subrange(off, off + 16)[2] == b[off + 2]);
    }
    let w = b.subrange(off, off + 16);
    assert(b.subrange(off + 4, off + 8) =~= w.subrange(4, 8));
    assert(b.subrange(off + 8, off + 12) =~= w.subrange(8, 12));
    assert(b.subrange(off + 12, off + 16) =~= w.subrange(12, 16));
    assert(mb.subrange(4, 8) =~= be_bytes_u32(m.uncompressed_len));
    assert(mb.subrange(8, 12) =~= be_bytes_u32(m.compressed_len));
    assert(mb.subrange(12, 16) =~= be_bytes_u32(m.crc32c));
    lemma_u32_be_roundtrip(m.uncompressed_len);
    lemma_u32_be_roundtrip(m.compressed_len);
    lemma_u32_be_roundtrip(m.crc32c);
}

proof fn lemma_parse_headers_of(b: Seq<u8>, ms: Seq<FrameMetadata>, k: nat)
    requires
        k <= ms.len(),
        b.len() >= 16 + 16 * ms.len(),
        b.subrange(16, 16 + 16 * ms.len() as int) == headers_bytes(ms),
        forall|i: int| 0 <= i < ms.len() ==> meta_in_limits(#[trigger] ms[i]),
    ensures
        parse_headers(b, k) == Ok::<Seq<FrameMetadata>, bool>(ms.take(k as int)),
    decreases k,
{
    if k > 0 {
        lemma_parse_headers_of(b, ms, (k - 1) as nat);
        let i = k - 1;
        lemma_headers_layout(ms);
        let off = 16 + 16 * i;
        assert(headers_bytes(ms).subrange(16 * i, 16 * i + 16) == meta_bytes(ms[i as int]));
        assert(b.subrange(off, off + 16) =~= headers_bytes(ms).subrange(16 * i, 16 * i + 16));
        lemma_meta_bytes_read_back(b, off, ms[i as int]);
        assert(meta_in_limits(ms[i as int]));
        assert(b.len() >= off + 16);
        assert(ms.take(k as int) =~= ms.take(i as int).push(ms[i as int]));
        assert(parse_headers(b, (k - 1) as nat) == Ok::<Seq<FrameMetadata>, bool>(ms.take(i as int)));
        assert(meta_at(b, 16 + 16 * (k - 1)) == ms[i as int]);
        assert(parse_headers(b, k) == Ok::<Seq<FrameMetadata>, bool>(ms.take(i as int).push(meta_at(b, 16 + 16 * (k - 1)))));
    } else {
        assert(ms.take(0) =~= Seq::<FrameMetadata>::empty());
    }
}

/// A container written from valid frames parses back to exactly their
/// headers, and each frame's payload sits at its offset.
pub proof fn lemma_container_layout(ms: Seq<FrameMetadata>, ps: Seq<Seq<u8>>, ds: Seq<Seq<u8>>)
    requires
        ms.len() == ps.len(),
        ms.len() == ds.len(),
        ms.len() <= MAX_FRAME_COUNT,
        forall|i: int| 0 <= i < ms.len() ==> frame_valid(#[trigger] ms[i], ps[i], ds[i]),
    ensures
        parse_container(container_bytes(ms, ps)) == Ok::<Seq<FrameMetadata>, bool>(ms),
        container_bytes(ms, ps).len() == frame_offset(ms, ms.len() as int),
        forall|i: int|
            0 <= i < ms.len() ==> frame_offset(ms, i) + ms[i].compressed_len <= container_bytes(
                ms,
                ps,
            ).len(),
        forall|i: int|
            0 <= i < ms.len() ==> #[trigger] container_bytes(ms, ps).subrange(
                frame_offset(ms, i),
                frame_offset(ms, i) + ms[i].compressed_len,
            ) == ps[i],
{
    let n = ms.len();
    let b = container_bytes(ms, ps);
    let fh = file_header(n as u32);
    lemma_headers_layout(ms);
    assert forall|i: int| 0 <= i < ms.len() implies ms[i].compressed_len == #[trigger] ps[i].len() by {
        assert(frame_valid(ms[i], ps[i], ds[i]));
    }
    lemma_payloads_layout(ms, ps);
    assert(fh.len() == 16);
    assert(b.subrange(0, 8) =~= magic());
    assert(b[8] == FORMAT_VERSION);
    assert(b.subrange(10, 14) =~= be_bytes_u32(n as u32));
    lemma_u32_be_roundtrip(n as u32);
    assert(b.subrange(16, 16 + 16 * n as int) =~= headers_bytes(ms));
    assert forall|i: int| 0 <= i < ms.len() implies meta_in_limits(#[trigger] ms[i]) by {
        assert(frame_valid(ms[i], ps[i], ds[i]));
    }
    lemma_parse_headers_of(b, ms, n as nat);
    assert(ms.take(n as int) =~= ms);
    lemma_container_payload_slices(ms, ps);
}

proof fn lemma_container_payload_slices(ms: Seq<FrameMetadata>, ps: Seq<Seq<u8>>)
    requires
        ms.len() == ps.len(),
        forall|i: int| 0 <= i < ms.len() ==> ms[i].compressed_len == #[trigger] ps[i].len(),
    ensures
        container_bytes(ms, ps).len() == frame_offset(ms, ms.len() as int),
        forall|i: int|
            0 <= i < ms.len() ==> frame_offset(ms, i) + ms[i].compressed_len <= container_bytes(
                ms,
                ps,
            ).len(),
        forall|i: int|
            0 <= i < ms.len() ==> #[trigger] container_bytes(ms, ps).subrange(
                frame_offset(ms, i),
                frame_offset(ms, i) + ms[i].compressed_len,
            ) == ps[i],
{
    let n = ms.len();
    let b = container_bytes(ms, ps);
    lemma_headers_layout(ms);
    lemma_payloads_layout(ms, ps);
    assert forall|i: int| 0 <= i < ms.len() implies #[trigger] b.subrange(
        frame_offset(ms, i),
        frame_offset(ms, i) + ms[i].compressed_len,
    ) == ps[i] by {
        let c = concat_payloads(ps);
        lemma_payload_offset_mono(ms, 0, i);
        assert(b.subrange(frame_offset(ms, i), frame_offset(ms, i) + ms[i].compressed_len) =~= c.subrange(
            payload_offset(ms, i),
            payload_offset(ms, i) + ms[i].compressed_len,
        ));
    }
}

/// The metadata of a stored frame list.
pub open spec fn frame_metas(frames: Seq<(FrameMetadata, Vec<u8>)>) -> Seq<FrameMetadata> {
    frames.map_values(|f: (FrameMetadata, Vec<u8>)| f.0)
}

/// The payloads of a stored frame list.
pub open spec fn frame_payloads(frames: Seq<(FrameMetadata, Vec<u8>)>) -> Seq<Seq<u8>> {
    frames.map_values(|f: (FrameMetadata, Vec<u8>)| f.1@)
}

/// Container writer: frames are compressed as they come and the container
/// bytes are produced at the end.
pub struct ContainerWriter {
    frames: Vec<(FrameMetadata, Vec<u8>)>,
    compression: Codec,
    originals: Ghost<Seq<Seq<u8>>>,
}

impl ContainerWriter {
    /// Headers of the frames written so far.
    pub closed spec fn metas(&self) -> Seq<FrameMetadata> {
        frame_metas(self.frames@)
    }

    /// Compressed payloads of the frames written so far.
    pub closed spec fn payloads(&self) -> Seq<Seq<u8>> {
        frame_payloads(self.frames@)
    }

    /// The uncompressed frames written so far.
    pub closed spec fn written(&self) -> Seq<Seq<u8>> {
        self.originals@
    }

    /// The codec in use.
    pub closed spec fn codec(&self) -> Codec {
        self.compression
    }

    /// Every stored frame is valid for the data it was written from, and
    /// carries the writer's codec.
    pub closed spec fn wf(&self) -> bool {
        &&& self.frames@.len() == self.originals@.len()
        &&& forall|i: int|
            0 <= i < self.frames@.len() ==> frame_valid(
                #[trigger] frame_metas(self.frames@)[i],
                frame_payloads(self.frames@)[i],
                self.originals@[i],
            ) && frame_metas(self.frames@)[i].codec_id == self.compression.codec()
    }

    /// Every stored frame is valid for the data it was written from.
    pub proof fn lemma_wf(&self)
        requires
            self.wf(),
        ensures
            self.metas().len() == self.payloads().len(),
            self.metas().len() == self.written().len(),
            forall|i: int|
                0 <= i < self.metas().len() ==> frame_valid(
                    #[trigger] self.metas()[i],
                    self.payloads()[i],
                    self.written()[i],
                ),
    {
    }

    /// A writer with the default codec (LZ4).
    pub fn new() -> (r: Result<Self>)
        ensures
            r matches Ok(w) && w.wf() && w.written() == Seq::<Seq<u8>>::empty()
                && w.metas() == Seq::<FrameMetadata>::empty() && w.codec() == Codec::Lz4(Lz4Compression),
    {
        Self::with_compression(default_compression())
    }

    /// A writer with the given codec.
    pub fn with_compression(compression: Codec) -> (r: Result<Self>)
        ensures
            r matches Ok(w) && w.wf() && w.written() == Seq::<Seq<u8>>::empty()
                && w.metas() == Seq::<FrameMetadata>::empty() && w.codec() == compression,
    {
        let w = Self { frames: Vec::new(), compression, originals: Ghost(Seq::empty()) };
        assert(w.metas() =~= Seq::<FrameMetadata>::empty());
        Ok(w)
    }

    /// Compresses and stores one frame.
    pub fn write_frame(&mut self, data: &[u8]) -> (r: Result<()>)
        requires
            old(self).wf(),
        ensures
            final(self).wf(),
            final(self).codec() == old(self).codec(),
            r is Err ==> final(self).metas() == old(self).metas() && final(self).payloads() == old(
                self,
            ).payloads() && final(self).written() == old(self).written(),
            data.len() > MAX_UNCOMPRESSED_FRAME_BYTES ==> r matches Err(Error::InvalidFormat(_)),
            r matches Err(e) ==> (e is InvalidFormat || e is Codec),
            data.len() <= MAX_COMPRESSED_FRAME_BYTES && old(self).codec() is Stored ==> r is Ok,
            r is Ok ==> ({
                let c = final(self).payloads().last();
                &&& data.len() <= MAX_UNCOMPRESSED_FRAME_BYTES
                &&& c.len() <= MAX_COMPRESSED_FRAME_BYTES
                &&& codec_encodes(old(self).codec().codec(), data@, c)
                &&& old(self).codec() is Stored ==> c == data@
                &&& final(self).written() == old(self).written().push(data@)
                &&& final(self).payloads() == old(self).payloads().push(c)
                &&& final(self).metas() == old(self).metas().push(
                    FrameMetadata {
                        codec_id: old(self).codec().codec(),
                        codec_vers: 0,
                        graph_id: 0,
                        uncompressed_len: data.len() as u32,
                        compressed_len: c.len() as u32,
                        crc32c: crc32_of(c),
                    },
                )
            }),
    {
        if data.len() > MAX_UNCOMPRESSED_FRAME_BYTES as usize {
            return Err(
                Error::InvalidFormat(
                    numbered("Frame exceeds max uncompressed size (", MAX_UNCOMPRESSED_FRAME_BYTES as i64, " bytes)"),
                ),
            );
        }
        let uncompressed_len = data.len() as u32;
        let compressed = self.compression.compress(data)?;
        if compressed.len() > MAX_COMPRESSED_FRAME_BYTES as usize {
            return Err(
                Error::InvalidFormat(
                    numbered("Frame exceeds max compressed size (", MAX_COMPRESSED_FRAME_BYTES as i64, " bytes)"),
                ),
            );
        }
        let compressed_len = compressed.len() as u32;
        let crc32c = crc32_bytes(compressed.as_slice());
        let meta = FrameMetadata {
            codec_id: self.compression.codec_id(),
            codec_vers: 0,
            graph_id: 0,
            uncompressed_len,
            compressed_len,
            crc32c,
        };
        let ghost old_frames = self.frames@;
        self.frames.push((meta, compressed));
        proof {
            self.originals@ = self.originals@.push(data@);
            assert(frame_metas(self.frames@) =~= frame_metas(old_frames).push(meta));
            assert(frame_payloads(self.frames@) =~= frame_payloads(old_frames).push(compressed@));
            assert forall|i: int| 0 <= i < self.frames@.len() implies frame_valid(
                #[trigger] frame_metas(self.frames@)[i],
                frame_payloads(self.frames@)[i],
                self.originals@[i],
            ) && frame_metas(self.frames@)[i].codec_id == self.compression.codec() by {
                if i < old_frames.len() {
                    assert(frame_metas(self.frames@)[i] == frame_metas(old_frames)[i]);
                    assert(frame_payloads(self.frames@)[i] == frame_payloads(old_frames)[i]);
                }
            }
        }
        Ok(())
    }

    /// Produces the container bytes for all frames written.
    pub fn finish(self) -> (r: Result<Vec<u8>>)
        requires
            self.wf(),
        ensures
            self.metas().len() > MAX_FRAME_COUNT ==> r matches Err(Error::InvalidFormat(_)),
            self.metas().len() <= MAX_FRAME_COUNT ==> (r matches Ok(b) && b@ == container_bytes(
                self.metas(),
                self.payloads(),
            )),
    {
        if self.frames.len() > MAX_FRAME_COUNT as usize {
            return Err(
                Error::InvalidFormat(numbered("Too many frames (max ", MAX_FRAME_COUNT as i64, ")")),
            );
        }
        let frame_count = self.frames.len() as u32;
        let ghost ms = self.metas();
        let ghost ps = self.payloads();
        let mut out: Vec<u8> = Vec::new();
        let magic_bytes: [u8; 8] = [0x4F, 0x43, 0x54, 0x41, 0x33, 0x44, 0, 0];
        extend_bytes(&mut out, &magic_bytes);
        out.push(FORMAT_VERSION);
        out.push(0);
        let count_bytes = u32_to_be_bytes(frame_count);
        extend_bytes(&mut out, &count_bytes);
        out.push(0);
        out.push(0);
        assert(out@ =~= file_header(frame_count));
        let mut i: usize = 0;
        while i < self.frames.len()
            invariant
                i <= self.frames.len(),
                ms == frame_metas(self.frames@),
                out@ == file_header(frame_count) + headers_bytes(ms.take(i as int)),
            decreases self.frames.len() - i,
        {
            let meta = self.frames[i].0;
            out.push(meta.codec_id);
            out.push(meta.codec_vers);
            out.push(meta.graph_id);
            out.push(0);
            extend_bytes(&mut out, &u32_to_be_bytes(meta.uncompressed_len));
            extend_bytes(&mut out, &u32_to_be_bytes(meta.compressed_len));
            extend_bytes(&mut out, &u32_to_be_bytes(meta.crc32c));
            proof {
                assert(ms.take(i + 1).drop_last() =~= ms.take(i as int));
                assert(ms[i as int] == meta);
            }
            i = i + 1;
        }
        assert(ms.take(self.frames.len() as int) =~= ms);
        let ghost hdr = out@;
        let mut i: usize = 0;
        while i < self.frames.len()
            invariant
                i <= self.frames.len(),
                ps == frame_payloads(self.frames@),
                out@ == hdr + concat_payloads(ps.take(i as int)),
            decreases self.frames.len() - i,
        {
            extend_bytes(&mut out, self.frames[i].1.as_slice());
            proof {
                assert(ps.take(i + 1).drop_last() =~= ps.take(i as int));
                assert(ps[i as int] == self.frames@[i as int].1@);
            }
            i = i + 1;
        }
        assert(ps.take(self.frames.len() as int) =~= ps);
        assert(ms.len() as u32 == frame_count);
        Ok(out)
    }
}

/// Container reader over the bytes of a container.
pub struct ContainerReader {
    data: Vec<u8>,
    pos: usize,
    frame_count: u32,
    current_frame: u32,
    frames: Vec<FrameMetadata>,
}

/// Reads one frame header at `off`.
fn read_meta(data: &Vec<u8>, off: usize) -> (m: FrameMetadata)
    requires
        off + 16 <= data.len(),
    ensures
        m == meta_at(data@, off as int),
{
    FrameMetadata {
        codec_id: data[off],
        codec_vers: data[off + 1],
        graph_id: data[off + 2],
        uncompressed_len: u32_from_be_slice(data.as_slice(), off + 4),
        compressed_len: u32_from_be_slice(data.as_slice(), off + 8),
        crc32c: u32_from_be_slice(data.as_slice(), off + 12),
    }
}

/// The error for input that ends too early.
fn truncated() -> (e: Error)
    ensures
        e matches Error::Io(_),
{
    Error::Io("failed to fill whole buffer".to_owned())
}

/// The bytes `data[start..end]`.
fn slice_bytes(data: &Vec<u8>, start: usize, end: usize) -> (r: Vec<u8>)
    requires
        start <= end <= data.len(),
    ensures
        r@ == data@.subrange(start as int, end as int),
{
    let mut out: Vec<u8> = Vec::with_capacity(end - start);
    let mut i = start;
    while i < end
        invariant
            start <= i <= end,
            end <= data.len(),
            out@ == data@.subrange(start as int, i as int),
        decreases end - i,
    {
        out.push(data[i]);
        i = i + 1;
        assert(out@ =~= data@.subrange(start as int, i as int));
    }
    out
}

impl ContainerReader {
    /// The container bytes.
    pub closed spec fn bytes(&self) -> Seq<u8> {
        self.data@
    }

    /// Offset of the next payload.
    pub closed spec fn position(&self) -> int {
        self.pos as int
    }

    /// Index of the next frame.
    pub closed spec fn current(&self) -> int {
        self.current_frame as int
    }

    /// The frame headers.
    pub closed spec fn metas(&self) -> Seq<FrameMetadata> {
        self.frames@
    }

    /// The reader's state is consistent.
    pub closed spec fn wf(&self) -> bool {
        &&& self.frames@.len() == self.frame_count
        &&& self.current_frame <= self.frame_count
        &&& self.pos <= self.data@.len()
    }

    /// Parses the file header and the frame headers of a container.
    pub fn open(data: Vec<u8>) -> (r: Result<Self>)
        ensures
            parse_container(data@) == Err::<Seq<FrameMetadata>, bool>(true) ==> r matches Err(Error::Io(_)),
            parse_container(data@) == Err::<Seq<FrameMetadata>, bool>(false) ==> r matches Err(
                Error::InvalidFormat(_),
            ),
            parse_container(data@) matches Ok(ms) ==> (r matches Ok(rd) && rd.wf() && rd.bytes()
                == data@ && rd.metas() == ms && rd.current() == 0 && rd.position() == 16 + 16
                * ms.len()),
    {
        if data.len() < 8 {
            return Err(truncated());
        }
        let m = slice_bytes(&data, 0, 8);
        if !(m[0] == 0x4F && m[1] == 0x43 && m[2] == 0x54 && m[3] == 0x41 && m[4] == 0x33 && m[5]
            == 0x44 && m[6] == 0 && m[7] == 0) {
            proof {
                if data@.subrange(0, 8) == magic() {
                    assert(m@[0] == magic()[0]);
                }
            }
            return Err(Error::InvalidFormat("Invalid magic number".to_owned()));
        }
        assert(data@.subrange(0, 8) =~= magic());
        if data.len() < 9 {
            return Err(truncated());
        }
        let format_version = data[8];
        if format_version != FORMAT_VERSION {
            return Err(
                Error::InvalidFormat(numbered("Unsupported format version: ", format_version as i64, "")),
            );
        }
        if data.len() < 14 {
            return Err(truncated());
        }
        let frame_count = u32_from_be_slice(data.as_slice(), 10);
        if frame_count > MAX_FRAME_COUNT {
            return Err(
                Error::InvalidFormat(numbered2("Frame count ", frame_count as i64, " exceeds limit ", MAX_FRAME_COUNT as i64, "")),
            );
        }
        if data.len() < 16 {
            return Err(truncated());
        }
        let mut frames: Vec<FrameMetadata> = Vec::new();
        let mut k: u32 = 0;
        assert(parse_container(data@) == parse_headers(data@, frame_count as nat));
        while k < frame_count
            invariant
                k <= frame_count,
                frame_count <= MAX_FRAME_COUNT,
                data.len() >= 16,
                parse_container(data@) == parse_headers(data@, frame_count as nat),
                parse_headers(data@, k as nat) == Ok::<Seq<FrameMetadata>, bool>(frames@),
            decreases frame_count - k,
        {
            let off: usize = 16 + 16 * (k as usize);
            if data.len() < off + 16 {
                proof { lemma_parse_headers_err_sticky(data@, (k + 1) as nat, frame_count as nat); }
                return Err(truncated());
            }
            let meta = read_meta(&data, off);
            if meta.compressed_len > MAX_COMPRESSED_FRAME_BYTES {
                proof { lemma_parse_headers_err_sticky(data@, (k + 1) as nat, frame_count as nat); }
                return Err(
                    Error::InvalidFormat(
                        numbered2("Compressed frame length ", meta.compressed_len as i64, " exceeds limit ", MAX_COMPRESSED_FRAME_BYTES as i64, ""),
                    ),
                );
            }
            if meta.uncompressed_len > MAX_UNCOMPRESSED_FRAME_BYTES {
                proof { lemma_parse_headers_err_sticky(data@, (k + 1) as nat, frame_count as nat); }
                return Err(
                    Error::InvalidFormat(
                        numbered2("Uncompressed frame length ", meta.uncompressed_len as i64, " exceeds limit ", MAX_UNCOMPRESSED_FRAME_BYTES as i64, ""),
                    ),
                );
            }
            frames.push(meta);
            k = k + 1;
        }
        let pos: usize = 16 + 16 * (frame_count as usize);
        proof {
            lemma_parse_headers_len(data@, frame_count as nat);
        }
        Ok(Self { data, pos, frame_count, current_frame: 0, frames })
    }

    /// Total number of frames.
    pub fn frame_count(&self) -> (r: u32)
        requires
            self.wf(),
        ensures
            r == self.metas().len(),
    {
        self.frame_count
    }

    /// Reads, checks and decompresses the next frame.
    pub fn next_frame(&mut self) -> (r: Result<Option<Vec<u8>>>)
        requires
            old(self).wf(),
        ensures
            final(self).wf(),
            final(self).bytes() == old(self).bytes(),
            final(self).metas() == old(self).metas(),
            old(self).current() >= old(self).metas().len() ==> (r matches Ok(None) && final(self).position()
                == old(self).position() && final(self).current() == old(self).current()),
            old(self).current() < old(self).metas().len() ==> ({
                let m = old(self).metas()[old(self).current()];
                let p = old(self).position();
                let c = old(self).bytes().subrange(p, p + m.compressed_len);
                &&& m.compressed_len > MAX_COMPRESSED_FRAME_BYTES ==> (r matches Err(Error::InvalidFormat(_))
                    && final(self).position() == p && final(self).current() == old(self).current())
                &&& m.compressed_len <= MAX_COMPRESSED_FRAME_BYTES && p + m.compressed_len > old(self).bytes().len()
                    ==> (r matches Err(Error::Io(_)) && final(self).position() == old(self).bytes().len()
                    && final(self).current() == old(self).current())
                &&& m.compressed_len <= MAX_COMPRESSED_FRAME_BYTES && p + m.compressed_len <= old(self).bytes().len()
                    ==> final(self).position() == p + m.compressed_len && (
                    if crc32_of(c) != m.crc32c {
                        r == Err::<Option<Vec<u8>>, Error>(Error::CrcMismatch { expected: m.crc32c, actual: crc32_of(c) })
                            && final(self).current() == old(self).current()
                    } else if m.codec_id != CODEC_LZ4 && m.codec_id != CODEC_ZSTD && m.codec_id != CODEC_NONE {
                        r == Err::<Option<Vec<u8>>, Error>(Error::UnsupportedCodec(m.codec_id))
                            && final(self).current() == old(self).current()
                    } else {
                        &&& match decoded_by(m.codec_id, c) {
                            Some(d) => (r matches Ok(Some(v)) && v@ == d) && final(self).current() == old(self).current() + 1,
                            None => (r matches Err(Error::Codec(_))) && final(self).current() == old(self).current(),
                        }
                        &&& forall|d: Seq<u8>| #[trigger] codec_encodes(m.codec_id, d, c) ==> decoded_by(m.codec_id, c) == Some(d)
                    })
            }),
    {
        if self.current_frame >= self.frame_count {
            return Ok(None);
        }
        let meta = self.frames[self.current_frame as usize];
        if meta.compressed_len > MAX_COMPRESSED_FRAME_BYTES {
            return Err(
                Error::InvalidFormat(
                    numbered2("Compressed frame length ", meta.compressed_len as i64, " exceeds limit ", MAX_COMPRESSED_FRAME_BYTES as i64, ""),
                ),
            );
        }
        let len = meta.compressed_len as usize;
        if self.data.len() - self.pos < len {
            self.pos = self.data.len();
            return Err(truncated());
        }
        let compressed = slice_bytes(&self.data, self.pos, self.pos + len);
        self.pos = self.pos + len;
        let computed_crc = crc32_bytes(compressed.as_slice());
        if computed_crc != meta.crc32c {
            return Err(Error::CrcMismatch { expected: meta.crc32c, actual: computed_crc });
        }
        let compression = get_compression(meta.codec_id)?;
        let decompressed = compression.decompress(compressed.as_slice())?;
        self.current_frame = self.current_frame + 1;
        Ok(Some(decompressed))
    }
}

proof fn lemma_parse_headers_err_sticky(b: Seq<u8>, k: nat, n: nat)
    requires
        1 <= k <= n,
        parse_headers(b, k) is Err,
    ensures
        parse_headers(b, n) == parse_headers(b, k),
    decreases n - k,
{
    if k < n {
        lemma_parse_headers_err_sticky(b, k, (n - 1) as nat);
    }
}

proof fn lemma_parse_headers_len(b: Seq<u8>, n: nat)
    requires
        parse_headers(b, n) is Ok,
    ensures
        parse_headers(b, n)->Ok_0.len() == n,
        n > 0 ==> b.len() >= 16 + 16 * n,
    decreases n,
{
    if n > 0 {
        lemma_parse_headers_len(b, (n - 1) as nat);
    }
}

/// Reading back what a writer wrote: the written bytes open to exactly the
/// written headers, the reader starts at the first payload, and at the
/// position of frame `i` it finds that frame's payload, whose checksum matches
/// and whose codec decodes it to the data written as frame `i`; the next frame
/// starts right after it.
pub proof fn lemma_read_back_written(w: ContainerWriter, i: int)
    requires
        w.wf(),
        w.metas().len() <= MAX_FRAME_COUNT,
        0 <= i < w.metas().len(),
    ensures
        ({
            let ms = w.metas();
            let b = container_bytes(ms, w.payloads());
            let m = ms[i];
            let c = b.subrange(frame_offset(ms, i), frame_offset(ms, i) + m.compressed_len);
            &&& parse_container(b) == Ok::<Seq<FrameMetadata>, bool>(ms)
            &&& frame_offset(ms, 0) == 16 + 16 * ms.len()
            &&& frame_offset(ms, i + 1) == frame_offset(ms, i) + m.compressed_len
            &&& frame_offset(ms, i) + m.compressed_len <= b.len()
            &&& m.compressed_len <= MAX_COMPRESSED_FRAME_BYTES
            &&& crc32_of(c) == m.crc32c
            &&& (m.codec_id == CODEC_LZ4 || m.codec_id == CODEC_ZSTD || m.codec_id == CODEC_NONE)
            &&& codec_encodes(m.codec_id, w.written()[i], c)
        }),
{
    w.lemma_wf();
    let ms = w.metas();
    let ps = w.payloads();
    lemma_container_layout(ms, ps, w.written());
    assert(frame_valid(ms[i], ps[i], w.written()[i]));
}

} // verus!
