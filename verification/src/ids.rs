//! The three packed identifier types:
//! - [`Galactic128`]: 128-bit global identifier with frame and scale,
//! - [`Index64`]: 64-bit Morton-ordered storage key with tier and level of detail,
//! - [`Route64`]: 64-bit signed 20-bit-per-axis BCC coordinate for local routing.

use vstd::prelude::*;
use crate::bech32m::{bech32_decode, bech32_decoding, bech32m_encode, bech32m_encoding, lowercase_hrp};
use crate::bytes::{
    be_bytes_u128, be_bytes_u64, lemma_u128_be_roundtrip, lemma_u64_be_roundtrip, u128_from_be,
    u128_from_be_slice, u128_to_be_bytes, u64_from_be, u64_from_be_slice, u64_to_be_bytes,
};
use crate::error::{Error, Result};
use crate::text::{numbered, push_hex, push_text};
use crate::lattice::{coord_unchecked, is_bcc, LatticeCoord, Parity};
use crate::morton;
use crate::morton::{deinterleave, morton_spec};

verus! {

/// Frame identifier (8 bits).
pub type FrameId = u8;

// =============================================================================
// Galactic128
// =============================================================================

/// Bits 127..120 of a Galactic128: scale mantissa.
pub open spec fn gal_scale_mant(v: u128) -> u8 {
    (v >> 120u128) as u8
}

/// Bits 119..118: scale tier.
pub open spec fn gal_scale_tier(v: u128) -> u8 {
    ((v >> 118u128) & 0x3) as u8
}

/// Bits 117..112: level of detail.
pub open spec fn gal_lod(v: u128) -> u8 {
    ((v >> 112u128) & 0x3F) as u8
}

/// Bits 111..104: frame identifier.
pub open spec fn gal_frame(v: u128) -> u8 {
    ((v >> 104u128) & 0xFF) as u8
}

/// Bits 99..96: user attributes.
pub open spec fn gal_attr_usr(v: u128) -> u8 {
    ((v >> 96u128) & 0xF) as u8
}

/// Bits 95..64: X as 32-bit two's complement.
pub open spec fn gal_x(v: u128) -> i32 {
    ((v >> 64u128) & 0xFFFF_FFFF) as u32 as i32
}

/// Bits 63..32: Y.
pub open spec fn gal_y(v: u128) -> i32 {
    ((v >> 32u128) & 0xFFFF_FFFF) as u32 as i32
}

/// Bits 31..0: Z.
pub open spec fn gal_z(v: u128) -> i32 {
    (v & 0xFFFF_FFFF) as u32 as i32
}

/// The packed value of a Galactic128 (the internal attribute nibble is 1).
pub open spec fn gal_pack(
    frame: u8,
    scale_mant: u8,
    scale_tier: u8,
    lod: u8,
    attr_usr: u8,
    x: i32,
    y: i32,
    z: i32,
) -> u128 {
    ((scale_mant as u128) << 120u128) | (((scale_tier as u128) & 0x3) << 118u128) | (((
    lod as u128) & 0x3F) << 112u128) | ((frame as u128) << 104u128) | (1u128 << 100u128) | (((
    attr_usr as u128) & 0xF) << 96u128) | (((x as u32 as u128) & 0xFFFF_FFFF) << 64u128) | (((
    y as u32 as u128) & 0xFFFF_FFFF) << 32u128) | ((z as u32 as u128) & 0xFFFF_FFFF)
}

pub(crate) proof fn lemma_gal_fields(
    frame: u8,
    scale_mant: u8,
    scale_tier: u8,
    lod: u8,
    attr_usr: u8,
    x: i32,
    y: i32,
    z: i32,
)
    requires
        scale_tier <= 3,
        lod <= 63,
    ensures
        ({
            let v = gal_pack(frame, scale_mant, scale_tier, lod, attr_usr, x, y, z);
            &&& gal_frame(v) == frame
            &&& gal_scale_mant(v) == scale_mant
            &&& gal_scale_tier(v) == scale_tier
            &&& gal_lod(v) == lod
            &&& gal_attr_usr(v) == attr_usr & 0xF
            &&& gal_x(v) == x
            &&& gal_y(v) == y
            &&& gal_z(v) == z
        }),
{
    let v = gal_pack(frame, scale_mant, scale_tier, lod, attr_usr, x, y, z);
    assert(gal_frame(v) == frame && gal_scale_mant(v) == scale_mant && gal_scale_tier(v) == scale_tier
        && gal_lod(v) == lod && gal_attr_usr(v) == attr_usr & 0xF && gal_x(v) == x && gal_y(v) == y
        && gal_z(v) == z) by (bit_vector)
        requires
            v == gal_pack(frame, scale_mant, scale_tier, lod, attr_usr, x, y, z),
            scale_tier <= 3,
            lod <= 63,
    ;
}


/// The scale tier and level of detail of a Galactic128 fit their widths.
pub(crate) proof fn lemma_gal_bounds(v: u128)
    by (bit_vector)
    ensures
        (v >> 118u128) & 0x3 <= 3,
        (v >> 112u128) & 0x3F <= 63,
{
}

/// 128-bit global position/cell identifier with frame and scale.
///
/// Bit layout, most significant first: scale mantissa (8), scale tier (2),
/// level of detail (6), frame (8), internal attributes (4, always 1),
/// user attributes (4), X (32, signed), Y (32, signed), Z (32, signed).
#[derive(Debug, Clone, Copy, PartialEq, Eq, Hash, Structural)]
pub struct Galactic128 {
    value: u128,
}

impl View for Galactic128 {
    type V = u128;

    closed spec fn view(&self) -> u128 {
        self.value
    }
}

impl Galactic128 {
    /// Creates a Galactic128 identifier.
    #[allow(clippy::too_many_arguments)]
    pub fn new(
        frame: FrameId,
        scale_mant: u8,
        scale_tier: u8,
        lod: u8,
        attr_usr: u8,
        x: i32,
        y: i32,
        z: i32,
    ) -> (r: Result<Self>)
        ensures
            !is_bcc(x as int, y as int, z as int) ==> r == Err::<Galactic128, Error>(
                Error::InvalidParity { x, y, z },
            ),
            is_bcc(x as int, y as int, z as int) && scale_tier > 3 ==> r matches Err(
                Error::InvalidScaleTier(_),
            ),
            is_bcc(x as int, y as int, z as int) && scale_tier <= 3 && lod > 63 ==> r matches Err(
                Error::InvalidLOD(_),
            ),
            is_bcc(x as int, y as int, z as int) && scale_tier <= 3 && lod <= 63 ==> (r matches Ok(g)
                && g@ == gal_pack(frame, scale_mant, scale_tier, lod, attr_usr, x, y, z)
                && gal_frame(g@) == frame && gal_scale_mant(g@) == scale_mant
                && gal_scale_tier(g@) == scale_tier && gal_lod(g@) == lod
                && gal_attr_usr(g@) == attr_usr & 0xF && gal_x(g@) == x && gal_y(g@) == y
                && gal_z(g@) == z),
    {
        Parity::from_coords(x, y, z)?;
        if scale_tier > 3 {
            return Err(
                Error::InvalidScaleTier(numbered("scale_tier must be 0-3, got ", scale_tier as i64, "")),
            );
        }
        if lod > 63 {
            return Err(Error::InvalidLOD(numbered("lod must be 0-63, got ", lod as i64, "")));
        }
        let value: u128 = ((scale_mant as u128) << 120u128) | (((scale_tier as u128) & 0x3)
            << 118u128) | (((lod as u128) & 0x3F) << 112u128) | ((frame as u128) << 104u128) | (
        1u128 << 100u128) | (((attr_usr as u128) & 0xF) << 96u128) | (((x as u32 as u128)
            & 0xFFFF_FFFF) << 64u128) | (((y as u32 as u128) & 0xFFFF_FFFF) << 32u128) | ((
        z as u32 as u128) & 0xFFFF_FFFF);
        proof {
            lemma_gal_fields(frame, scale_mant, scale_tier, lod, attr_usr, x, y, z);
        }
        Ok(Self { value })
    }

    /// Frame identifier.
    pub fn frame_id(&self) -> (r: FrameId)
        ensures
            r == gal_frame(self@),
    {
        ((self.value >> 104u128) & 0xFF) as u8
    }

    /// Scale mantissa.
    pub fn scale_mant(&self) -> (r: u8)
        ensures
            r == gal_scale_mant(self@),
    {
        (self.value >> 120u128) as u8
    }

    /// Scale tier.
    pub fn scale_tier(&self) -> (r: u8)
        ensures
            r == gal_scale_tier(self@),
            r <= 3,
    {
        let v = self.value;
        proof { lemma_gal_bounds(v); }
        ((v >> 118u128) & 0x3) as u8
    }

    /// Level of detail.
    pub fn lod(&self) -> (r: u8)
        ensures
            r == gal_lod(self@),
            r <= 63,
    {
        let v = self.value;
        proof { lemma_gal_bounds(v); }
        ((v >> 112u128) & 0x3F) as u8
    }

    /// User attributes.
    pub fn attr_usr(&self) -> (r: u8)
        ensures
            r == gal_attr_usr(self@),
    {
        ((self.value >> 96u128) & 0xF) as u8
    }

    /// X coordinate.
    pub fn x(&self) -> (r: i32)
        ensures
            r == gal_x(self@),
    {
        ((self.value >> 64u128) & 0xFFFF_FFFF) as u32 as i32
    }

    /// Y coordinate.
    pub fn y(&self) -> (r: i32)
        ensures
            r == gal_y(self@),
    {
        ((self.value >> 32u128) & 0xFFFF_FFFF) as u32 as i32
    }

    /// Z coordinate.
    pub fn z(&self) -> (r: i32)
        ensures
            r == gal_z(self@),
    {
        (self.value & 0xFFFF_FFFF) as u32 as i32
    }

    /// The coordinates as a lattice coordinate.
    pub fn lattice_coord(&self) -> (r: Result<LatticeCoord>)
        ensures
            ({
                let (x, y, z) = (gal_x(self@), gal_y(self@), gal_z(self@));
                &&& is_bcc(x as int, y as int, z as int) ==> r == Ok::<LatticeCoord, Error>(
                    coord_unchecked(x as int, y as int, z as int),
                )
                &&& !is_bcc(x as int, y as int, z as int) ==> r == Err::<LatticeCoord, Error>(
                    Error::InvalidParity { x, y, z },
                )
            }),
    {
        LatticeCoord::new(self.x(), self.y(), self.z())
    }

    /// Raw 128-bit value.
    pub fn raw(&self) -> (r: u128)
        ensures
            r == self@,
    {
        self.value
    }

    /// Rebuilds an identifier from its raw value, without validation.
    pub(crate) fn from_raw(value: u128) -> (r: Self)
        ensures
            r@ == value,
    {
        Self { value }
    }

    /// Two identifiers with the same raw value are equal.
    pub proof fn lemma_view_eq(a: Self, b: Self)
        requires
            a@ == b@,
        ensures
            a == b,
    {
    }
}

// =============================================================================
// Index64
// =============================================================================

/// Bits 59..52 of an Index64: frame identifier.
pub open spec fn idx_frame(v: u64) -> u8 {
    ((v >> 52u64) & 0xFF) as u8
}

/// Bits 61..60: scale tier.
pub open spec fn idx_tier(v: u64) -> u8 {
    ((v >> 60u64) & 0x3) as u8
}

/// Bits 51..48: level of detail.
pub open spec fn idx_lod(v: u64) -> u8 {
    ((v >> 48u64) & 0xF) as u8
}

/// Bits 47..0: Morton or Hilbert code.
pub open spec fn idx_code(v: u64) -> u64 {
    v & 0xFFFF_FFFF_FFFF
}

/// Bits 63..62: header identifying the key type.
pub open spec fn idx_header(v: u64) -> u64 {
    v >> 62u64
}

/// Packs a 64-bit key: header, tier, frame, level of detail and 48-bit code.
pub open spec fn key_pack(hdr: u64, tier: u8, frame: u8, lod: u8, code: u64) -> u64 {
    (hdr << 62u64) | (((tier as u64) & 0x3) << 60u64) | ((frame as u64) << 52u64) | (((
    lod as u64) & 0xF) << 48u64) | (code & 0xFFFF_FFFF_FFFF)
}

/// The fields of a packed 64-bit key read back what was packed.
pub proof fn lemma_key_fields(hdr: u64, tier: u8, frame: u8, lod: u8, code: u64)
    requires
        hdr <= 3,
        tier <= 3,
        lod <= 15,
    ensures
        ({
            let v = key_pack(hdr, tier, frame, lod, code);
            &&& idx_header(v) == hdr
            &&& idx_tier(v) == tier
            &&& idx_frame(v) == frame
            &&& idx_lod(v) == lod
            &&& idx_code(v) == code & 0xFFFF_FFFF_FFFF
        }),
{
    let v = key_pack(hdr, tier, frame, lod, code);
    assert(idx_header(v) == hdr && idx_tier(v) == tier && idx_frame(v) == frame && idx_lod(v) == lod
        && idx_code(v) == code & 0xFFFF_FFFF_FFFF) by (bit_vector)
        requires
            v == key_pack(hdr, tier, frame, lod, code),
            hdr <= 3,
            tier <= 3,
            lod <= 15,
    ;
}

/// The small fields of a key fit their widths.
pub proof fn lemma_key_bounds(v: u64)
    by (bit_vector)
    ensures
        idx_header(v) <= 3,
        idx_tier(v) <= 3,
        idx_lod(v) <= 15,
        (v >> 60u64) & 0x3 <= 3,
        (v >> 48u64) & 0xF <= 15,
        v & 0xFFFF_FFFF_FFFF < 0x1_0000_0000_0000,
{
}

/// A key is determined by its fields.
pub proof fn lemma_key_unpack(v: u64)
    ensures
        v == key_pack(idx_header(v), idx_tier(v), idx_frame(v), idx_lod(v), idx_code(v)),
{
    assert(v == key_pack(idx_header(v), idx_tier(v), idx_frame(v), idx_lod(v), idx_code(v)))
        by (bit_vector);
}

/// The key one level coarser: code shifted right by one octal digit.
pub open spec fn key_parent(v: u64) -> u64 {
    key_pack(idx_header(v), idx_tier(v), idx_frame(v), (idx_lod(v) - 1) as u8, idx_code(v) >> 3u64)
}

/// Child `i` (0 <= i < 8) one level finer: the code gains a low octal digit.
pub open spec fn key_child(v: u64, i: u64) -> u64 {
    key_pack(idx_header(v), idx_tier(v), idx_frame(v), (idx_lod(v) + 1) as u8, ((idx_code(v) << 3u64) | i) & 0xFFFF_FFFF_FFFF)
}

/// The parent of every child of a key is the key itself, as long as the
/// key's code fits in the 45 bits that leave room for one more digit.
pub proof fn lemma_key_parent_child(v: u64, i: u64)
    requires
        i < 8,
        idx_lod(v) < 15,
        idx_code(v) < 0x2000_0000_0000,
    ensures
        idx_lod(key_child(v, i)) == idx_lod(v) + 1,
        key_parent(key_child(v, i)) == v,
{
    let h = idx_header(v);
    let t = idx_tier(v);
    let f = idx_frame(v);
    let l = idx_lod(v);
    let c = idx_code(v);
    lemma_key_bounds(v);
    let cc = ((c << 3u64) | i) & 0xFFFF_FFFF_FFFF;
    lemma_key_fields(h, t, f, (l + 1) as u8, cc);
    assert((cc & 0xFFFF_FFFF_FFFF) >> 3u64 == c) by (bit_vector)
        requires cc == ((c << 3u64) | i) & 0xFFFF_FFFF_FFFF, c < 0x2000_0000_0000, i < 8;
    lemma_key_unpack(v);
}

/// 64-bit storage key using Morton (Z-order) encoding.
///
/// Bit layout: header `10` (2), scale tier (2), frame (8), level of detail (4),
/// Morton code (48, 16 bits per axis).
#[derive(Debug, Clone, Copy, PartialEq, Eq, Hash, PartialOrd, Ord, Structural)]
pub struct Index64 {
    value: u64,
}

impl View for Index64 {
    type V = u64;

    closed spec fn view(&self) -> u64 {
        self.value
    }
}

/// Header of an Index64.
pub const INDEX64_HDR: u64 = 0b10;

impl Index64 {
    /// Creates an Index64 from frame, tier, level of detail and 16-bit coordinates.
    pub fn new(frame: FrameId, tier: u8, lod: u8, x16: u16, y16: u16, z16: u16) -> (r: Result<Self>)
        ensures
            tier > 3 ==> r matches Err(Error::InvalidScaleTier(_)),
            tier <= 3 && lod > 15 ==> r matches Err(Error::InvalidLOD(_)),
            tier <= 3 && lod <= 15 ==> (r matches Ok(k)
                && k@ == key_pack(2, tier, frame, lod, morton_spec(x16 as nat, y16 as nat, z16 as nat, 16) as u64)
                && idx_header(k@) == 2 && idx_tier(k@) == tier && idx_frame(k@) == frame
                && idx_lod(k@) == lod
                && idx_code(k@) as nat == morton_spec(x16 as nat, y16 as nat, z16 as nat, 16)
                && deinterleave(idx_code(k@) as nat, 16) == (x16 as nat, y16 as nat, z16 as nat)),
    {
        if tier > 3 {
            return Err(Error::InvalidScaleTier(numbered("tier must be 0-3, got ", tier as i64, "")));
        }
        if lod > 15 {
            return Err(Error::InvalidLOD(numbered("lod must be 0-15, got ", lod as i64, "")));
        }
        let morton = morton::morton_encode(x16, y16, z16);
        let value: u64 = (INDEX64_HDR << 62u64) | (((tier as u64) & 0x3) << 60u64) | ((
        frame as u64) << 52u64) | (((lod as u64) & 0xF) << 48u64) | (morton & 0xFFFF_FFFF_FFFF);
        proof {
            lemma_key_fields(2, tier, frame, lod, morton);
            assert(morton & 0xFFFF_FFFF_FFFF == morton) by (bit_vector)
                requires morton < 0x1_0000_0000_0000;
            morton::lemma_morton_roundtrip(x16, y16, z16);
        }
        Ok(Self { value })
    }

    /// Frame identifier.
    pub fn frame_id(&self) -> (r: FrameId)
        ensures
            r == idx_frame(self@),
    {
        ((self.value >> 52u64) & 0xFF) as u8
    }

    /// Scale tier.
    pub fn scale_tier(&self) -> (r: u8)
        ensures
            r == idx_tier(self@),
            r <= 3,
    {
        let v = self.value;
        proof { lemma_key_bounds(v); }
        ((v >> 60u64) & 0x3) as u8
    }

    /// Level of detail.
    pub fn lod(&self) -> (r: u8)
        ensures
            r == idx_lod(self@),
            r <= 15,
    {
        let v = self.value;
        proof { lemma_key_bounds(v); }
        ((v >> 48u64) & 0xF) as u8
    }

    /// The 48-bit Morton code.
    pub fn morton(&self) -> (r: u64)
        ensures
            r == idx_code(self@),
            r < 0x1_0000_0000_0000,
    {
        let v = self.value;
        proof { lemma_key_bounds(v); }
        v & 0xFFFF_FFFF_FFFF
    }

    /// The 16-bit coordinates encoded in the Morton code.
    pub fn decode_coords(&self) -> (r: (u16, u16, u16))
        ensures
            (r.0 as nat, r.1 as nat, r.2 as nat) == deinterleave(idx_code(self@) as nat, 16),
    {
        morton::morton_decode(self.morton())
    }

    /// The key one level coarser, or `None` at level 0.
    pub fn parent(&self) -> (r: Option<Self>)
        ensures
            idx_lod(self@) == 0 ==> r is None,
            idx_lod(self@) > 0 ==> (r matches Some(p) && p@ == key_parent(self@)),
    {
        let lod = self.lod();
        if lod == 0 {
            return None;
        }
        let morton = self.morton() >> 3u64;
        let v = self.value;
        let value: u64 = (v & !0xF_FFFF_FFFF_FFFFu64) | (((lod - 1) as u64) << 48u64) | morton;
        proof {
            lemma_key_rebuild_parent(v);
        }
        Some(Self { value })
    }

    /// The 8 keys one level finer, or none at level 15.
    pub fn children(&self) -> (r: Vec<Self>)
        ensures
            idx_lod(self@) >= 15 ==> r.len() == 0,
            idx_lod(self@) < 15 ==> r.len() == 8 && forall|i: int|
                0 <= i < 8 ==> #[trigger] r[i]@ == key_child(self@, i as u64),
    {
        let lod = self.lod();
        if lod >= 15 {
            return Vec::new();
        }
        let morton = self.morton();
        let v = self.value;
        let mut children: Vec<Self> = Vec::with_capacity(8);
        let mut i: u64 = 0;
        while i < 8
            invariant
                i <= 8,
                lod == idx_lod(v),
                lod < 15,
                morton == idx_code(v),
                v == self@,
                children.len() == i,
                forall|j: int| 0 <= j < i ==> #[trigger] children[j]@ == key_child(v, j as u64),
            decreases 8 - i,
        {
            let child_morton = (morton << 3u64) | i;
            let value: u64 = (v & !0xF_FFFF_FFFF_FFFFu64) | (((lod + 1) as u64) << 48u64) | (
            child_morton & 0xFFFF_FFFF_FFFF);
            proof {
                lemma_key_rebuild_child(v, i);
            }
            children.push(Self { value });
            i = i + 1;
        }
        children
    }

    /// Raw 64-bit value.
    pub fn raw(&self) -> (r: u64)
        ensures
            r == self@,
    {
        self.value
    }

    /// Rebuilds a key from its raw value, without validation.
    pub(crate) fn from_raw(value: u64) -> (r: Self)
        ensures
            r@ == value,
    {
        Self { value }
    }

    /// Two keys with the same raw value are equal.
    pub proof fn lemma_view_eq(a: Self, b: Self)
        requires
            a@ == b@,
        ensures
            a == b,
    {
    }

    /// The key with a given raw value.
    pub closed spec fn spec_from_raw(v: u64) -> Self {
        Index64 { value: v }
    }

    /// The key with a given raw value has that raw value.
    pub proof fn lemma_spec_from_raw(v: u64)
        ensures
            Self::spec_from_raw(v)@ == v,
    {
    }

    /// Every child of a key has the key as its parent.
    pub proof fn lemma_parent_of_child(k: Self, i: u64)
        requires
            i < 8,
            idx_lod(k@) < 15,
            idx_code(k@) < 0x2000_0000_0000,
        ensures
            idx_lod(key_child(k@, i)) > 0,
            key_parent(key_child(k@, i)) == k@,
    {
        lemma_key_parent_child(k@, i);
    }
}

/// The in-place rebuild used by `parent` equals [`key_parent`].
pub proof fn lemma_key_rebuild_parent(v: u64)
    requires
        idx_lod(v) > 0,
    ensures
        (v & !0xF_FFFF_FFFF_FFFFu64) | ((((idx_lod(v) - 1) as u8) as u64) << 48u64) | ((v
            & 0xFFFF_FFFF_FFFF) >> 3u64) == key_parent(v),
{
    let l = idx_lod(v);
    lemma_key_bounds(v);
    let l1 = (l - 1) as u8;
    assert((v & !0xF_FFFF_FFFF_FFFFu64) | ((l1 as u64) << 48u64) | ((v & 0xFFFF_FFFF_FFFF)
        >> 3u64) == key_pack(idx_header(v), idx_tier(v), idx_frame(v), l1, idx_code(v) >> 3u64))
        by (bit_vector)
        requires l1 < 15;
}

/// The in-place rebuild used by `children` equals [`key_child`].
pub proof fn lemma_key_rebuild_child(v: u64, i: u64)
    requires
        idx_lod(v) < 15,
        i < 8,
    ensures
        (v & !0xF_FFFF_FFFF_FFFFu64) | ((((idx_lod(v) + 1) as u8) as u64) << 48u64) | ((((v
            & 0xFFFF_FFFF_FFFF) << 3u64) | i) & 0xFFFF_FFFF_FFFF) == key_child(v, i),
{
    let l = idx_lod(v);
    let l1 = (l + 1) as u8;
    assert((v & !0xF_FFFF_FFFF_FFFFu64) | ((l1 as u64) << 48u64) | ((((v & 0xFFFF_FFFF_FFFF)
        << 3u64) | i) & 0xFFFF_FFFF_FFFF) == key_pack(idx_header(v), idx_tier(v), idx_frame(v), l1, ((idx_code(v) << 3u64) | i) & 0xFFFF_FFFF_FFFF))
        by (bit_vector)
        requires l1 <= 15;
}

// =============================================================================
// Route64
// =============================================================================

/// Smallest coordinate a Route64 holds.
pub const ROUTE_COORD_MIN: i32 = -524288;
/// Largest coordinate a Route64 holds.
pub const ROUTE_COORD_MAX: i32 = 524287;

/// Sign extension of a 20-bit two's complement value.
pub open spec fn sign_extend_20_spec(raw: u32) -> i32 {
    if (raw >> 19u32) & 1 == 1 {
        (raw | 0xFFF0_0000) as i32
    } else {
        raw as i32
    }
}

/// Bits 59..40 of a Route64: X.
pub open spec fn route_x(v: u64) -> i32 {
    sign_extend_20_spec(((v >> 40u64) & 0xFFFFF) as u32)
}

/// Bits 39..20: Y.
pub open spec fn route_y(v: u64) -> i32 {
    sign_extend_20_spec(((v >> 20u64) & 0xFFFFF) as u32)
}

/// Bits 19..0: Z.
pub open spec fn route_z(v: u64) -> i32 {
    sign_extend_20_spec((v & 0xFFFFF) as u32)
}

/// Packs a Route64: header `01`, tier, and the low 20 bits of each coordinate.
pub open spec fn route_pack(tier: u8, x: i32, y: i32, z: i32) -> u64 {
    (1u64 << 62u64) | (((tier as u64) & 0x3) << 60u64) | (((x as u32 as u64) & 0xFFFFF)
        << 40u64) | (((y as u32 as u64) & 0xFFFFF) << 20u64) | ((z as u32 as u64) & 0xFFFFF)
}

/// The coordinate fits in 20 signed bits.
pub open spec fn in_route_range(c: int) -> bool {
    -524288 <= c <= 524287
}

proof fn lemma_sign_extend_20(x: i32)
    requires
        in_route_range(x as int),
    ensures
        sign_extend_20_spec(((x as u32 as u64) & 0xFFFFF) as u32) == x,
{
    assert(sign_extend_20_spec(((x as u32 as u64) & 0xFFFFF) as u32) == x) by (bit_vector)
        requires -524288 <= x <= 524287;
}

/// The fields of a packed Route64 read back what was packed.
pub proof fn lemma_route_fields(tier: u8, x: i32, y: i32, z: i32)
    requires
        tier <= 3,
        in_route_range(x as int),
        in_route_range(y as int),
        in_route_range(z as int),
    ensures
        ({
            let v = route_pack(tier, x, y, z);
            &&& idx_header(v) == 1
            &&& idx_tier(v) == tier
            &&& route_x(v) == x
            &&& route_y(v) == y
            &&& route_z(v) == z
        }),
{
    let v = route_pack(tier, x, y, z);
    lemma_sign_extend_20(x);
    lemma_sign_extend_20(y);
    lemma_sign_extend_20(z);
    assert(idx_header(v) == 1 && idx_tier(v) == tier && ((v >> 40u64) & 0xFFFFF) == (x as u32 as u64)
        & 0xFFFFF && ((v >> 20u64) & 0xFFFFF) == (y as u32 as u64) & 0xFFFFF && (v & 0xFFFFF) == (z as u32
        as u64) & 0xFFFFF) by (bit_vector)
        requires
            v == route_pack(tier, x, y, z),
            tier <= 3,
    ;
}

/// Every value a Route64 coordinate decodes to fits in 20 signed bits.
pub proof fn lemma_route_coords_in_range(v: u64)
    ensures
        in_route_range(route_x(v) as int),
        in_route_range(route_y(v) as int),
        in_route_range(route_z(v) as int),
{
    let a = ((v >> 40u64) & 0xFFFFF) as u32;
    let b = ((v >> 20u64) & 0xFFFFF) as u32;
    let c = (v & 0xFFFFF) as u32;
    assert(a < 0x100000 && b < 0x100000 && c < 0x100000) by (bit_vector)
        requires a == ((v >> 40u64) & 0xFFFFF) as u32, b == ((v >> 20u64) & 0xFFFFF) as u32,
            c == (v & 0xFFFFF) as u32;
    assert(forall|r: u32| r < 0x100000 ==> -524288 <= #[trigger] sign_extend_20_spec(r) <= 524287)
        by (bit_vector);
}

/// 64-bit local routing coordinate: signed 20-bit BCC coordinates.
///
/// Bit layout: header `01` (2), scale tier (2), X (20), Y (20), Z (20).
#[derive(Debug, Clone, Copy, PartialEq, Eq, Hash, Structural)]
pub struct Route64 {
    value: u64,
}

impl View for Route64 {
    type V = u64;

    closed spec fn view(&self) -> u64 {
        self.value
    }
}

/// Header of a Route64.
pub const ROUTE64_HDR: u64 = 0b01;

/// Sign-extends a 20-bit value to 32 bits.
fn sign_extend_20(val: u32) -> (r: i32)
    ensures
        r == sign_extend_20_spec(val),
{
    let sign_bit = (val >> 19u32) & 1;
    if sign_bit == 1 {
        (val | 0xFFF0_0000) as i32
    } else {
        val as i32
    }
}

impl Route64 {
    /// Creates a Route64, checking parity, tier and the 20-bit range.
    pub fn new(tier: u8, x: i32, y: i32, z: i32) -> (r: Result<Self>)
        ensures
            !is_bcc(x as int, y as int, z as int) ==> r == Err::<Route64, Error>(
                Error::InvalidParity { x, y, z },
            ),
            is_bcc(x as int, y as int, z as int) && tier > 3 ==> r matches Err(
                Error::InvalidScaleTier(_),
            ),
            is_bcc(x as int, y as int, z as int) && tier <= 3 && !(in_route_range(x as int)
                && in_route_range(y as int) && in_route_range(z as int)) ==> r matches Err(
                Error::OutOfRange(_),
            ),
            is_bcc(x as int, y as int, z as int) && tier <= 3 && in_route_range(x as int)
                && in_route_range(y as int) && in_route_range(z as int) ==> (r matches Ok(rt)
                && rt@ == route_pack(tier, x, y, z) && idx_header(rt@) == 1 && idx_tier(rt@)
                == tier && route_x(rt@) == x && route_y(rt@) == y && route_z(rt@) == z),
    {
        Parity::from_coords(x, y, z)?;
        if tier > 3 {
            return Err(Error::InvalidScaleTier(numbered("tier must be 0-3, got ", tier as i64, "")));
        }
        if !(ROUTE_COORD_MIN <= x && x <= ROUTE_COORD_MAX) {
            return Err(Error::OutOfRange(numbered("x=", x as i64, " out of 20-bit range")));
        }
        if !(ROUTE_COORD_MIN <= y && y <= ROUTE_COORD_MAX) {
            return Err(Error::OutOfRange(numbered("y=", y as i64, " out of 20-bit range")));
        }
        if !(ROUTE_COORD_MIN <= z && z <= ROUTE_COORD_MAX) {
            return Err(Error::OutOfRange(numbered("z=", z as i64, " out of 20-bit range")));
        }
        proof {
            lemma_route_fields(tier, x, y, z);
        }
        Ok(Self::new_unchecked(tier, x, y, z))
    }

    /// Scale tier.
    pub fn scale_tier(&self) -> (r: u8)
        ensures
            r == idx_tier(self@),
            r <= 3,
    {
        let v = self.value;
        proof { lemma_key_bounds(v); }
        ((v >> 60u64) & 0x3) as u8
    }

    /// X coordinate (signed 20-bit).
    pub fn x(&self) -> (r: i32)
        ensures
            r == route_x(self@),
            in_route_range(r as int),
    {
        proof { lemma_route_coords_in_range(self.value); }
        let raw = ((self.value >> 40u64) & 0xFFFFF) as u32;
        sign_extend_20(raw)
    }

    /// Y coordinate (signed 20-bit).
    pub fn y(&self) -> (r: i32)
        ensures
            r == route_y(self@),
            in_route_range(r as int),
    {
        proof { lemma_route_coords_in_range(self.value); }
        let raw = ((self.value >> 20u64) & 0xFFFFF) as u32;
        sign_extend_20(raw)
    }

    /// Z coordinate (signed 20-bit).
    pub fn z(&self) -> (r: i32)
        ensures
            r == route_z(self@),
            in_route_range(r as int),
    {
        proof { lemma_route_coords_in_range(self.value); }
        let raw = (self.value & 0xFFFFF) as u32;
        sign_extend_20(raw)
    }

    /// The coordinates as a lattice coordinate.
    pub fn lattice_coord(&self) -> (r: Result<LatticeCoord>)
        ensures
            ({
                let (x, y, z) = (route_x(self@), route_y(self@), route_z(self@));
                &&& is_bcc(x as int, y as int, z as int) ==> r == Ok::<LatticeCoord, Error>(
                    coord_unchecked(x as int, y as int, z as int),
                )
                &&& !is_bcc(x as int, y as int, z as int) ==> r == Err::<LatticeCoord, Error>(
                    Error::InvalidParity { x, y, z },
                )
            }),
    {
        LatticeCoord::new(self.x(), self.y(), self.z())
    }

    /// Raw 64-bit value.
    pub fn raw(&self) -> (r: u64)
        ensures
            r == self@,
    {
        self.value
    }

    /// The raw 64-bit value (same as [`Route64::raw`]).
    pub fn value(&self) -> (r: u64)
        ensures
            r == self@,
    {
        self.value
    }

    /// Rebuilds a Route64 from its raw value, checking the header and the parity.
    pub fn from_value(value: u64) -> (r: Result<Self>)
        ensures
            idx_header(value) != 1 ==> r matches Err(Error::DecodingError(_)),
            idx_header(value) == 1 && !is_bcc(
                route_x(value) as int,
                route_y(value) as int,
                route_z(value) as int,
            ) ==> r == Err::<Route64, Error>(
                Error::InvalidParity { x: route_x(value), y: route_y(value), z: route_z(value) },
            ),
            idx_header(value) == 1 && is_bcc(
                route_x(value) as int,
                route_y(value) as int,
                route_z(value) as int,
            ) ==> (r matches Ok(rt) && rt@ == value),
    {
        let header = (value >> 62u64) & 0x3;
        assert((value >> 62u64) & 0x3 == value >> 62u64) by (bit_vector);
        if header != ROUTE64_HDR {
            return Err(Error::DecodingError(route_header_mismatch(header)));
        }
        let route = Self { value };
        let (x, y, z) = (route.x(), route.y(), route.z());
        Parity::from_coords(x, y, z)?;
        Ok(route)
    }

    /// Packs a Route64 without validation: only the tier's low 2 bits and the
    /// coordinates' low 20 bits are kept.
    pub fn new_unchecked(tier: u8, x: i32, y: i32, z: i32) -> (r: Self)
        ensures
            r@ == route_pack(tier, x, y, z),
    {
        let value: u64 = (ROUTE64_HDR << 62u64) | (((tier as u64) & 0x3) << 60u64) | (((
        x as u32 as u64) & 0xFFFFF) << 40u64) | (((y as u32 as u64) & 0xFFFFF) << 20u64) | ((
        z as u32 as u64) & 0xFFFFF);
        Self { value }
    }

    /// Two routes with the same raw value are equal.
    pub proof fn lemma_view_eq(a: Self, b: Self)
        requires
            a@ == b@,
        ensures
            a == b,
    {
    }
}

/// Bech32m human-readable part of a Galactic128.
/// `Wrong HRP: expected <expected>, got <got>`.
fn wrong_hrp(expected: &str, got: &str) -> (s: String)
    ensures
        s@ == "Wrong HRP: expected "@ + expected@ + ", got "@ + got@,
{
    let mut s = String::new();
    push_text(&mut s, "Wrong HRP: expected ");
    push_text(&mut s, expected);
    push_text(&mut s, ", got ");
    push_text(&mut s, got);
    assert(s@ =~= "Wrong HRP: expected "@ + expected@ + ", got "@ + got@);
    s
}

/// `Invalid Route64 header: expected 0x01, got 0x<two hex digits>`.
fn route_header_mismatch(header: u64) -> (s: String)
    ensures
        s@ == "Invalid Route64 header: expected 0x01, got 0x"@ + crate::text::hex_digits(header as nat, 2),
{
    let mut s = String::new();
    push_text(&mut s, "Invalid Route64 header: expected 0x01, got 0x");
    push_hex(&mut s, header, 2);
    s
}

pub const HRP_GALACTIC: &'static str = "g3d1";
/// Bech32m human-readable part of an Index64.
pub const HRP_INDEX: &'static str = "i3d1";
/// Bech32m human-readable part of a Route64.
pub const HRP_ROUTE: &'static str = "r3d1";

impl Galactic128 {
    /// Encodes the raw value, big-endian, as a Bech32m string.
    pub fn to_bech32m(&self) -> (r: Result<String>)
        ensures
            bech32m_encoding(HRP_GALACTIC@, be_bytes_u128(self@)) matches Some(t) ==> (r matches Ok(s) && s@ == t),
            bech32m_encoding(HRP_GALACTIC@, be_bytes_u128(self@)) is None ==> r matches Err(Error::InvalidBech32 { .. }),
    {
        let bytes = u128_to_be_bytes(self.value);
        match bech32m_encode(HRP_GALACTIC, &bytes) {
            Ok(s) => Ok(s),
            Err(kind) => Err(Error::InvalidBech32 { kind }),
        }
    }

    /// Decodes a Bech32m string produced by `to_bech32m`.
    pub fn from_bech32m(s: &str) -> (r: Result<Self>)
        ensures
            bech32_decoding(s@) is None ==> r matches Err(Error::InvalidBech32 { .. }),
            bech32_decoding(s@) matches Some(p) ==> (p.0 != HRP_GALACTIC@ || p.1.len() != 16) ==> r matches Err(
                Error::InvalidBech32 { .. },
            ),
            bech32_decoding(s@) matches Some(p) ==> (p.0 == HRP_GALACTIC@ && p.1.len() == 16) ==> (r matches Ok(
                k,
            ) && k@ == u128_from_be(p.1)),
            forall|v: u128|
                #![trigger bech32m_encoding(HRP_GALACTIC@, be_bytes_u128(v))]
                (r matches Ok(k) && k@ == v) || bech32m_encoding(HRP_GALACTIC@, be_bytes_u128(v)) != Some(s@),
    {
        proof {
            reveal_strlit("g3d1");
            assert(lowercase_hrp(HRP_GALACTIC@));
            assert forall|v: u128| #[trigger] u128_from_be(be_bytes_u128(v)) == v by {
                lemma_u128_be_roundtrip(v);
            }
        }
        let parts = match bech32_decode(s) {
            Ok(p) => p,
            Err(kind) => return Err(Error::InvalidBech32 { kind }),
        };
        if parts.hrp != HRP_GALACTIC.to_owned() {
            return Err(Error::InvalidBech32 { kind: wrong_hrp(HRP_GALACTIC, parts.hrp.as_str()) });
        }
        if parts.data.len() != 16 {
            return Err(
                Error::InvalidBech32 {
                    kind: numbered("Wrong length: expected 16 bytes, got ", parts.data.len() as i64, ""),
                },
            );
        }
        let value = u128_from_be_slice(&parts.data, 0);
        assert(parts.data@.subrange(0, 16) =~= parts.data@);
        Ok(Self { value })
    }
}

impl Index64 {
    /// Encodes the raw value, big-endian, as a Bech32m string.
    pub fn to_bech32m(&self) -> (r: Result<String>)
        ensures
            bech32m_encoding(HRP_INDEX@, be_bytes_u64(self@)) matches Some(t) ==> (r matches Ok(s) && s@ == t),
            bech32m_encoding(HRP_INDEX@, be_bytes_u64(self@)) is None ==> r matches Err(Error::InvalidBech32 { .. }),
    {
        let bytes = u64_to_be_bytes(self.value);
        match bech32m_encode(HRP_INDEX, &bytes) {
            Ok(s) => Ok(s),
            Err(kind) => Err(Error::InvalidBech32 { kind }),
        }
    }

    /// Decodes a Bech32m string produced by `to_bech32m`.
    pub fn from_bech32m(s: &str) -> (r: Result<Self>)
        ensures
            bech32_decoding(s@) is None ==> r matches Err(Error::InvalidBech32 { .. }),
            bech32_decoding(s@) matches Some(p) ==> (p.0 != HRP_INDEX@ || p.1.len() != 8) ==> r matches Err(
                Error::InvalidBech32 { .. },
            ),
            bech32_decoding(s@) matches Some(p) ==> (p.0 == HRP_INDEX@ && p.1.len() == 8) ==> (r matches Ok(
                k,
            ) && k@ == u64_from_be(p.1)),
            forall|v: u64|
                #![trigger bech32m_encoding(HRP_INDEX@, be_bytes_u64(v))]
                (r matches Ok(k) && k@ == v) || bech32m_encoding(HRP_INDEX@, be_bytes_u64(v)) != Some(s@),
    {
        proof {
            reveal_strlit("i3d1");
            assert(lowercase_hrp(HRP_INDEX@));
            assert forall|v: u64| #[trigger] u64_from_be(be_bytes_u64(v)) == v by {
                lemma_u64_be_roundtrip(v);
            }
        }
        let parts = match bech32_decode(s) {
            Ok(p) => p,
            Err(kind) => return Err(Error::InvalidBech32 { kind }),
        };
        if parts.hrp != HRP_INDEX.to_owned() {
            return Err(Error::InvalidBech32 { kind: wrong_hrp(HRP_INDEX, parts.hrp.as_str()) });
        }
        if parts.data.len() != 8 {
            return Err(
                Error::InvalidBech32 {
                    kind: numbered("Wrong length: expected 8 bytes, got ", parts.data.len() as i64, ""),
                },
            );
        }
        let value = u64_from_be_slice(&parts.data, 0);
        assert(parts.data@.subrange(0, 8) =~= parts.data@);
        Ok(Self { value })
    }
}

impl Route64 {
    /// Encodes the raw value, big-endian, as a Bech32m string.
    pub fn to_bech32m(&self) -> (r: Result<String>)
        ensures
            bech32m_encoding(HRP_ROUTE@, be_bytes_u64(self@)) matches Some(t) ==> (r matches Ok(s) && s@ == t),
            bech32m_encoding(HRP_ROUTE@, be_bytes_u64(self@)) is None ==> r matches Err(Error::InvalidBech32 { .. }),
    {
        let bytes = u64_to_be_bytes(self.value);
        match bech32m_encode(HRP_ROUTE, &bytes) {
            Ok(s) => Ok(s),
            Err(kind) => Err(Error::InvalidBech32 { kind }),
        }
    }

    /// Decodes a Bech32m string produced by `to_bech32m`.
    pub fn from_bech32m(s: &str) -> (r: Result<Self>)
        ensures
            bech32_decoding(s@) is None ==> r matches Err(Error::InvalidBech32 { .. }),
            bech32_decoding(s@) matches Some(p) ==> (p.0 != HRP_ROUTE@ || p.1.len() != 8) ==> r matches Err(
                Error::InvalidBech32 { .. },
            ),
            bech32_decoding(s@) matches Some(p) ==> (p.0 == HRP_ROUTE@ && p.1.len() == 8) ==> (r matches Ok(
                k,
            ) && k@ == u64_from_be(p.1)),
            forall|v: u64|
                #![trigger bech32m_encoding(HRP_ROUTE@, be_bytes_u64(v))]
                (r matches Ok(k) && k@ == v) || bech32m_encoding(HRP_ROUTE@, be_bytes_u64(v)) != Some(s@),
    {
        proof {
            reveal_strlit("r3d1");
            assert(lowercase_hrp(HRP_ROUTE@));
            assert forall|v: u64| #[trigger] u64_from_be(be_bytes_u64(v)) == v by {
                lemma_u64_be_roundtrip(v);
            }
        }
        let parts = match bech32_decode(s) {
            Ok(p) => p,
            Err(kind) => return Err(Error::InvalidBech32 { kind }),
        };
        if parts.hrp != HRP_ROUTE.to_owned() {
            return Err(Error::InvalidBech32 { kind: wrong_hrp(HRP_ROUTE, parts.hrp.as_str()) });
        }
        if parts.data.len() != 8 {
            return Err(
                Error::InvalidBech32 {
                    kind: numbered("Wrong length: expected 8 bytes, got ", parts.data.len() as i64, ""),
                },
            );
        }
        let value = u64_from_be_slice(&parts.data, 0);
        assert(parts.data@.subrange(0, 8) =~= parts.data@);
        Ok(Self { value })
    }
}

} // verus!
