//! Hilbert64: a 64-bit key whose 48-bit code applies a 3-bit Gray code to
//! each octal digit of the interleaved coordinates.

use vstd::prelude::*;
use vstd::std_specs::convert::{FromSpecImpl, TryFromSpecImpl};
use crate::error::{Error, Result};
use crate::text::numbered;
use crate::ids::{
    idx_code, idx_frame, idx_header, idx_lod, idx_tier, key_child, key_pack, key_parent,
    lemma_key_fields, lemma_key_parent_child, lemma_key_rebuild_child, lemma_key_rebuild_parent,
    FrameId, Index64,
};
use crate::morton::{
    deinterleave, eight_pow, lemma_eight_pow_is_two_pow, lemma_eight_pow_mono, lemma_mod_eight,
    lemma_eight_pow_pos, lemma_two_pow_16, lemma_two_pow_mono, lemma_two_pow_pos, morton_spec,
    octant, two_pow,
};

verus! {

/// 3-bit Gray code of an octant.
pub open spec fn gray3(o: u8) -> u8 {
    o ^ (o >> 1u8)
}

/// Inverse of the 3-bit Gray code.
pub open spec fn ungray3(g: u8) -> u8 {
    let b1 = g ^ (g >> 1u8);
    let b2 = b1 ^ (b1 >> 2u8);
    b2 & 7
}

/// Gray-coded interleaving of the low `n` bits of `x`, `y`, `z`.
pub open spec fn hilbert_spec(x: nat, y: nat, z: nat, n: nat) -> nat
    decreases n,
{
    if n == 0 {
        0
    } else {
        hilbert_spec(x / 2, y / 2, z / 2, (n - 1) as nat) * 8 + gray3(octant(x, y, z) as u8) as nat
    }
}

/// The coordinates recovered from the low `n` Gray-coded octal digits of `h`.
pub open spec fn hilbert_deinterleave(h: nat, n: nat) -> (nat, nat, nat)
    decreases n,
{
    if n == 0 {
        (0, 0, 0)
    } else {
        let r = hilbert_deinterleave(h / 8, (n - 1) as nat);
        let o = ungray3((h % 8) as u8) as nat;
        (2 * r.0 + o % 2, 2 * r.1 + (o / 2) % 2, 2 * r.2 + (o / 4) % 2)
    }
}

proof fn lemma_gray_facts()
    by (bit_vector)
    ensures
        forall|o: u8| o < 8 ==> #[trigger] gray3(o) < 8 && ungray3(gray3(o)) == o,
        forall|g: u8| g < 8 ==> #[trigger] gray3(ungray3(g)) == g,
        forall|g: u8| #[trigger] ungray3(g) < 8,
{
}

/// The Hilbert code has at most `3n` bits.
pub proof fn lemma_hilbert_bound(x: nat, y: nat, z: nat, n: nat)
    ensures
        hilbert_spec(x, y, z, n) < eight_pow(n),
    decreases n,
{
    lemma_gray_facts();
    if n > 0 {
        lemma_hilbert_bound(x / 2, y / 2, z / 2, (n - 1) as nat);
        assert(gray3(octant(x, y, z) as u8) < 8);
    }
}

/// Each recovered coordinate has at most `n` bits.
pub proof fn lemma_hilbert_deinterleave_bound(h: nat, n: nat)
    ensures
        hilbert_deinterleave(h, n).0 < two_pow(n),
        hilbert_deinterleave(h, n).1 < two_pow(n),
        hilbert_deinterleave(h, n).2 < two_pow(n),
    decreases n,
{
    if n > 0 {
        lemma_hilbert_deinterleave_bound(h / 8, (n - 1) as nat);
    }
}

proof fn lemma_mod_double(x: nat, p: nat)
    requires
        p > 0,
    ensures
        2 * ((x / 2) % p) + x % 2 == x % (2 * p),
{
    let q = x / 2;
    let r = x % 2;
    let a = q / p;
    let b = q % p;
    assert(q == a * p + b) by (nonlinear_arith)
        requires a == q / p, b == q % p, p > 0;
    assert(x == a * (2 * p) + (2 * b + r)) by (nonlinear_arith)
        requires x == 2 * q + r, q == a * p + b;
    assert(0 <= 2 * b + r < 2 * p) by (nonlinear_arith)
        requires 0 <= b < p, 0 <= r < 2;
    vstd::arithmetic::div_mod::lemma_fundamental_div_mod_converse(
        x as int, (2 * p) as int, a as int, (2 * b + r) as int);
}

/// Decoding a Hilbert code gives the coordinates reduced to their low `n` bits.
pub proof fn lemma_hilbert_deinterleave_encode(x: nat, y: nat, z: nat, n: nat)
    ensures
        hilbert_deinterleave(hilbert_spec(x, y, z, n), n) == (
            x % two_pow(n),
            y % two_pow(n),
            z % two_pow(n),
        ),
    decreases n,
{
    if n > 0 {
        let n1 = (n - 1) as nat;
        lemma_hilbert_deinterleave_encode(x / 2, y / 2, z / 2, n1);
        lemma_gray_facts();
        let o = octant(x, y, z);
        assert(o < 8);
        let g = gray3(o as u8);
        assert(g < 8 && ungray3(g) == o as u8);
        let m = hilbert_spec(x, y, z, n);
        assert(m / 8 == hilbert_spec(x / 2, y / 2, z / 2, n1));
        assert(m % 8 == g as nat);
        let p = two_pow(n1);
        lemma_two_pow_pos(n1);
        lemma_mod_double(x, p);
        lemma_mod_double(y, p);
        lemma_mod_double(z, p);
    }
}

/// Decoding a Hilbert key's coordinates returns the encoded point.
pub proof fn lemma_hilbert_roundtrip(x: u16, y: u16, z: u16)
    ensures
        hilbert_deinterleave(hilbert_spec(x as nat, y as nat, z as nat, 16), 16) == (
            x as nat,
            y as nat,
            z as nat,
        ),
{
    lemma_two_pow_16();
    lemma_hilbert_deinterleave_encode(x as nat, y as nat, z as nat, 16);
}

/// Encoding the coordinates recovered from a code gives the code back,
/// reduced to its low `3n` bits.
pub proof fn lemma_hilbert_encode_deinterleave(h: nat, n: nat)
    ensures
        hilbert_spec(hilbert_deinterleave(h, n).0, hilbert_deinterleave(h, n).1, hilbert_deinterleave(h, n).2, n)
            == h % eight_pow(n),
    decreases n,
{
    if n > 0 {
        let n1 = (n - 1) as nat;
        lemma_hilbert_encode_deinterleave(h / 8, n1);
        lemma_gray_facts();
        let r = hilbert_deinterleave(h / 8, n1);
        let d = hilbert_deinterleave(h, n);
        let g = (h % 8) as u8;
        let o = ungray3(g) as nat;
        assert(o < 8);
        assert(d.0 / 2 == r.0 && d.1 / 2 == r.1 && d.2 / 2 == r.2);
        assert(octant(d.0, d.1, d.2) == o);
        assert(gray3(o as u8) == g);
        let p = eight_pow(n1);
        assert(p > 0) by { lemma_eight_pow_pos(n1); }
        lemma_mod_eight(h, p);
    }
}

/// Every 48-bit code is the Hilbert code of the coordinates decoded from it,
/// so encoding and decoding are inverse bijections between `u16` triples and
/// 48-bit codes.
pub proof fn lemma_hilbert_code_roundtrip(h: u64)
    requires
        h < 0x1_0000_0000_0000,
    ensures
        hilbert_spec(hilbert_deinterleave(h as nat, 16).0, hilbert_deinterleave(h as nat, 16).1, hilbert_deinterleave(
            h as nat,
            16,
        ).2, 16) == h,
{
    lemma_two_pow_16();
    lemma_hilbert_encode_deinterleave(h as nat, 16);
}

proof fn lemma_bit_step(v: u32, i: u32)
    requires
        1 <= i <= 16,
    ensures
        (v >> ((i - 1) as u32)) / 2 == v >> i,
        (v >> ((i - 1) as u32)) % 2 == (v >> ((i - 1) as u32)) & 1,
{
    crate::morton::bit_facts(v, i, (i - 1) as u32);
}

proof fn lemma_shift_step(v: u64, s: u64)
    requires
        3 <= s <= 63,
    ensures
        (v >> ((s - 3) as u64)) / 8 == v >> s,
        (v >> ((s - 3) as u64)) % 8 == (v >> ((s - 3) as u64)) & 7,
{
    crate::morton::shift_facts(v, s, (s - 3) as u64);
}

/// Encodes 3D coordinates into a 48-bit Hilbert code: from the top bit down,
/// each octant digit `z<<2 | y<<1 | x` is replaced by its Gray code.
pub fn hilbert3d_encode(x: u16, y: u16, z: u16) -> (r: u64)
    ensures
        r as nat == hilbert_spec(x as nat, y as nat, z as nat, 16),
        r < 0x1_0000_0000_0000,
{
    let (x32, y32, z32) = (x as u32, y as u32, z as u32);
    let mut hilbert: u64 = 0;
    let mut i: u32 = 16;
    assert(x32 >> 16u32 == 0 && y32 >> 16u32 == 0 && z32 >> 16u32 == 0) by (bit_vector)
        requires x32 < 65536, y32 < 65536, z32 < 65536;
    while i > 0
        invariant
            i <= 16,
            x32 == x as u32,
            y32 == y as u32,
            z32 == z as u32,
            hilbert as nat == hilbert_spec(
                (x32 >> i) as nat,
                (y32 >> i) as nat,
                (z32 >> i) as nat,
                (16 - i) as nat,
            ),
        decreases i,
    {
        let j = i - 1;
        let xbit = ((x32 >> j) & 1) as u8;
        let ybit = ((y32 >> j) & 1) as u8;
        let zbit = ((z32 >> j) & 1) as u8;
        proof {
            lemma_bit_step(x32, i);
            lemma_bit_step(y32, i);
            lemma_bit_step(z32, i);
            lemma_hilbert_bound((x32 >> i) as nat, (y32 >> i) as nat, (z32 >> i) as nat, (16 - i) as nat);
            lemma_eight_pow_mono((16 - i) as nat, 15);
            assert(eight_pow(15) == 0x2000_0000_0000) by { reveal_with_fuel(eight_pow, 16); }
            assert(xbit <= 1 && ybit <= 1 && zbit <= 1) by (bit_vector)
                requires xbit == ((x32 >> j) & 1) as u8, ybit == ((y32 >> j) & 1) as u8, zbit == ((z32 >> j) & 1) as u8;
            lemma_gray_facts();
        }
        let oct: u8 = (zbit << 2u8) | (ybit << 1u8) | xbit;
        assert(oct == xbit + 2 * ybit + 4 * zbit) by (bit_vector)
            requires oct == (zbit << 2u8) | (ybit << 1u8) | xbit, xbit <= 1, ybit <= 1, zbit <= 1;
        let gray = oct ^ (oct >> 1u8);
        hilbert = hilbert * 8 + gray as u64;
        i = j;
    }
    proof {
        assert(x32 >> 0u32 == x32 && y32 >> 0u32 == y32 && z32 >> 0u32 == z32) by (bit_vector);
        lemma_hilbert_bound(x as nat, y as nat, z as nat, 16);
        lemma_two_pow_16();
    }
    hilbert
}

/// Converts a 3-bit Gray code back to the octant.
pub fn gray_to_binary_3bit(gray: u8) -> (r: u8)
    ensures
        r == ungray3(gray),
{
    let mut binary = gray;
    binary = binary ^ (binary >> 1u8);
    binary = binary ^ (binary >> 2u8);
    binary & 7
}

proof fn lemma_hdecode_step(h: u64, i: u64, x: nat, y: nat, z: nat)
    requires
        1 <= i <= 16,
        (x, y, z) == hilbert_deinterleave((h >> (3 * i) as u64) as nat, (16 - i) as nat),
    ensures
        ({
            let o = ungray3(((h >> (3 * (i - 1)) as u64) & 7) as u8);
            ((2 * x + (o & 1)) as nat, (2 * y + ((o >> 1u8) & 1)) as nat, (2 * z + ((o >> 2u8)
                & 1)) as nat) == hilbert_deinterleave(
                (h >> (3 * (i - 1)) as u64) as nat,
                (17 - i) as nat,
            )
        }),
{
    let s = (3 * i) as u64;
    let t = (3 * (i - 1)) as u64;
    lemma_shift_step(h, s);
    let m = (h >> t) as nat;
    let d = (h >> t) & 7;
    let o = ungray3(d as u8);
    lemma_gray_facts();
    assert(o % 2 == o & 1 && (o / 2) % 2 == (o >> 1u8) & 1 && (o / 4) % 2 == (o >> 2u8) & 1)
        by (bit_vector);
    assert(m / 8 == (h >> s) as nat);
    assert(m % 8 == d);
}

/// Decodes a 48-bit Hilbert code into 3D coordinates.
pub fn hilbert3d_decode(hilbert: u64) -> (r: (u16, u16, u16))
    ensures
        (r.0 as nat, r.1 as nat, r.2 as nat) == hilbert_deinterleave(hilbert as nat, 16),
{
    let mut x: u32 = 0;
    let mut y: u32 = 0;
    let mut z: u32 = 0;
    let mut i: u64 = 16;
    while i > 0
        invariant
            i <= 16,
            (x as nat, y as nat, z as nat) == hilbert_deinterleave(
                (hilbert >> (3 * i) as u64) as nat,
                (16 - i) as nat,
            ),
        decreases i,
    {
        let gray = ((hilbert >> (3 * (i - 1))) & 7) as u8;
        let oct = gray_to_binary_3bit(gray);
        proof {
            lemma_hdecode_step(hilbert, i, x as nat, y as nat, z as nat);
            lemma_hilbert_deinterleave_bound((hilbert >> (3 * i) as u64) as nat, (16 - i) as nat);
            lemma_two_pow_mono((16 - i) as nat, 15);
            assert(two_pow(15) == 32768) by { reveal_with_fuel(two_pow, 16); }
            assert((oct & 1) <= 1 && ((oct >> 1u8) & 1) <= 1 && ((oct >> 2u8) & 1) <= 1)
                by (bit_vector);
        }
        x = x * 2 + (oct & 1) as u32;
        y = y * 2 + ((oct >> 1u8) & 1) as u32;
        z = z * 2 + ((oct >> 2u8) & 1) as u32;
        i = i - 1;
    }
    proof {
        assert(hilbert >> 0u64 == hilbert) by (bit_vector);
        lemma_hilbert_deinterleave_bound(hilbert as nat, 16);
        lemma_two_pow_16();
    }
    (x as u16, y as u16, z as u16)
}

/// 64-bit Hilbert curve key.
///
/// Bit layout: header `11` (2), scale tier (2), frame (8), level of detail (4),
/// Hilbert code (48, 16 bits per axis).
#[derive(Debug, Clone, Copy, PartialEq, Eq, Hash, PartialOrd, Ord, Structural)]
pub struct Hilbert64 {
    value: u64,
}

impl View for Hilbert64 {
    type V = u64;

    closed spec fn view(&self) -> u64 {
        self.value
    }
}

/// Header of a Hilbert64.
pub const HILBERT64_HDR: u64 = 0b11;

/// The raw value of the key that [`Hilbert64::new`] builds.
pub open spec fn hilbert_key(frame: u8, tier: u8, lod: u8, x: u16, y: u16, z: u16) -> u64 {
    key_pack(3, tier, frame, lod, hilbert_spec(x as nat, y as nat, z as nat, 16) as u64)
}

impl Hilbert64 {
    /// Creates a Hilbert64 key.
    pub fn new(frame: FrameId, tier: u8, lod: u8, x: u16, y: u16, z: u16) -> (r: Result<Self>)
        ensures
            tier > 3 ==> r matches Err(Error::InvalidScaleTier(_)),
            tier <= 3 && lod > 15 ==> r matches Err(Error::InvalidLOD(_)),
            tier <= 3 && lod <= 15 ==> (r matches Ok(k) && k@ == hilbert_key(frame, tier, lod, x, y, z)
                && idx_header(k@) == 3 && idx_tier(k@) == tier && idx_frame(k@) == frame
                && idx_lod(k@) == lod
                && idx_code(k@) as nat == hilbert_spec(x as nat, y as nat, z as nat, 16)
                && hilbert_deinterleave(idx_code(k@) as nat, 16) == (x as nat, y as nat, z as nat)),
    {
        if tier > 3 {
            return Err(Error::InvalidScaleTier(numbered("tier must be 0-3, got ", tier as i64, "")));
        }
        if lod > 15 {
            return Err(Error::InvalidLOD(numbered("lod must be 0-15, got ", lod as i64, "")));
        }
        let hilbert = hilbert3d_encode(x, y, z);
        let value: u64 = (HILBERT64_HDR << 62u64) | (((tier as u64) & 0x3) << 60u64) | ((
        frame as u64) << 52u64) | (((lod as u64) & 0xF) << 48u64) | (hilbert & 0xFFFF_FFFF_FFFF);
        proof {
            lemma_key_fields(3, tier, frame, lod, hilbert);
            assert(hilbert & 0xFFFF_FFFF_FFFF == hilbert) by (bit_vector)
                requires hilbert < 0x1_0000_0000_0000;
            lemma_hilbert_roundtrip(x, y, z);
        }
        Ok(Self { value })
    }

    /// Frame identifier.
    pub fn frame_id(&self) -> (r: FrameId)
        ensures
            r == idx_frame(self@),
    {
        ((self.value >> 52u64) & 0xFF) as u8
    }

    /// Scale tier.
    pub fn scale_tier(&self) -> (r: u8)
        ensures
            r == idx_tier(self@),
            r <= 3,
    {
        let v = self.value;
        proof { crate::ids::lemma_key_bounds(v); }
        ((v >> 60u64) & 0x3) as u8
    }

    /// Level of detail.
    pub fn lod(&self) -> (r: u8)
        ensures
            r == idx_lod(self@),
            r <= 15,
    {
        let v = self.value;
        proof { crate::ids::lemma_key_bounds(v); }
        ((v >> 48u64) & 0xF) as u8
    }

    /// The 48-bit Hilbert code.
    pub fn hilbert(&self) -> (r: u64)
        ensures
            r == idx_code(self@),
    {
        self.value & 0xFFFF_FFFF_FFFF
    }

    /// The 16-bit coordinates encoded in the key.
    pub fn decode(self) -> (r: (u16, u16, u16))
        ensures
            (r.0 as nat, r.1 as nat, r.2 as nat) == hilbert_deinterleave(idx_code(self@) as nat, 16),
    {
        hilbert3d_decode(self.hilbert())
    }

    /// The key one level coarser, or `None` at level 0.
    pub fn parent(self) -> (r: Option<Self>)
        ensures
            idx_lod(self@) == 0 ==> r is None,
            idx_lod(self@) > 0 ==> (r matches Some(p) && p@ == key_parent(self@)),
    {
        let lod = self.lod();
        if lod == 0 {
            return None;
        }
        let hilbert = self.hilbert() >> 3u64;
        let v = self.value;
        let value: u64 = (v & !0xF_FFFF_FFFF_FFFFu64) | (((lod - 1) as u64) << 48u64) | hilbert;
        proof {
            lemma_key_rebuild_parent(v);
        }
        Some(Self { value })
    }

    fn child_at(self, i: u64) -> (r: Self)
        requires
            idx_lod(self@) < 15,
            i < 8,
        ensures
            r@ == key_child(self@, i),
    {
        let lod = self.lod();
        let v = self.value;
        let child_hilbert = (self.hilbert() << 3u64) | i;
        let value: u64 = (v & !0xF_FFFF_FFFF_FFFFu64) | (((lod + 1) as u64) << 48u64) | (
        child_hilbert & 0xFFFF_FFFF_FFFF);
        proof {
            lemma_key_rebuild_child(v, i);
        }
        Self { value }
    }

    /// The 8 keys one level finer; at level 15, eight copies of the key itself.
    pub fn children(self) -> (r: [Self; 8])
        ensures
            idx_lod(self@) >= 15 ==> forall|i: int| 0 <= i < 8 ==> #[trigger] r@[i] == self,
            idx_lod(self@) < 15 ==> forall|i: int|
                0 <= i < 8 ==> #[trigger] r@[i]@ == key_child(self@, i as u64),
    {
        let lod = self.lod();
        if lod >= 15 {
            return [self;8];
        }
        [
            self.child_at(0),
            self.child_at(1),
            self.child_at(2),
            self.child_at(3),
            self.child_at(4),
            self.child_at(5),
            self.child_at(6),
            self.child_at(7),
        ]
    }

    /// Raw 64-bit value.
    pub fn as_u64(self) -> (r: u64)
        ensures
            r == self@,
    {
        self.value
    }

    /// Encodes a batch of coordinates with one frame, tier and level of detail.
    pub fn encode_batch(coords: &[(u16, u16, u16)], frame: FrameId, tier: u8, lod: u8) -> (r: Result<
        Vec<Self>,
    >)
        ensures
            coords.len() > 0 && tier > 3 ==> r matches Err(Error::InvalidScaleTier(_)),
            coords.len() > 0 && tier <= 3 && lod > 15 ==> r matches Err(Error::InvalidLOD(_)),
            coords.len() == 0 || (tier <= 3 && lod <= 15) ==> (r matches Ok(v) && v.len()
                == coords.len() && forall|i: int|
                0 <= i < coords.len() ==> #[trigger] v[i]@ == hilbert_key(
                    frame,
                    tier,
                    lod,
                    coords[i].0,
                    coords[i].1,
                    coords[i].2,
                )),
    {
        let mut out: Vec<Self> = Vec::with_capacity(coords.len());
        let mut i: usize = 0;
        while i < coords.len()
            invariant
                i <= coords.len(),
                i > 0 ==> tier <= 3 && lod <= 15,
                out.len() == i,
                forall|j: int|
                    0 <= j < i ==> #[trigger] out[j]@ == hilbert_key(
                        frame,
                        tier,
                        lod,
                        coords[j].0,
                        coords[j].1,
                        coords[j].2,
                    ),
            decreases coords.len() - i,
        {
            let (x, y, z) = coords[i];
            let h = Self::new(frame, tier, lod, x, y, z)?;
            out.push(h);
            i = i + 1;
        }
        Ok(out)
    }

    /// Two keys with the same raw value are equal.
    pub proof fn lemma_view_eq(a: Self, b: Self)
        requires
            a@ == b@,
        ensures
            a == b,
    {
    }

    /// Every child of a key has the key as its parent.
    pub proof fn lemma_parent_of_child(k: Self, i: u64)
        requires
            i < 8,
            idx_lod(k@) < 15,
            idx_code(k@) < 0x2000_0000_0000,
        ensures
            idx_lod(key_child(k@, i)) > 0,
            key_parent(key_child(k@, i)) == k@,
    {
        lemma_key_parent_child(k@, i);
    }
}

/// The Hilbert key with the same frame, tier, level of detail and coordinates
/// as an Index64.
pub open spec fn index_to_hilbert(v: u64) -> u64 {
    let c = deinterleave(idx_code(v) as nat, 16);
    hilbert_key(idx_frame(v), idx_tier(v), idx_lod(v), c.0 as u16, c.1 as u16, c.2 as u16)
}

/// The Index64 with the same frame, tier, level of detail and coordinates as a
/// Hilbert key.
pub open spec fn hilbert_to_index(v: u64) -> u64 {
    let c = hilbert_deinterleave(idx_code(v) as nat, 16);
    key_pack(2, idx_tier(v), idx_frame(v), idx_lod(v), morton_spec(c.0, c.1, c.2, 16) as u64)
}

impl TryFrom<Index64> for Hilbert64 {
    type Error = Error;

    fn try_from(index: Index64) -> (r: Result<Self>) {
        let (x, y, z) = index.decode_coords();
        let frame = index.frame_id();
        let tier = index.scale_tier();
        let lod = index.lod();
        proof {
            crate::morton::lemma_deinterleave_bound(idx_code(index@) as nat, 16);
            lemma_two_pow_16();
        }
        let r = Self::new(frame, tier, lod, x, y, z);
        assert(r matches Ok(h) && h == Hilbert64 { value: index_to_hilbert(index@) });
        r
    }
}

impl TryFromSpecImpl<Index64> for Hilbert64 {
    open spec fn obeys_try_from_spec() -> bool {
        true
    }

    closed spec fn try_from_spec(index: Index64) -> Result<Self> {
        Ok(Hilbert64 { value: index_to_hilbert(index@) })
    }
}

impl From<Hilbert64> for Index64 {
    fn from(hilbert: Hilbert64) -> (r: Index64) {
        let (x, y, z) = hilbert.decode();
        let frame = hilbert.frame_id();
        let tier = hilbert.scale_tier();
        let lod = hilbert.lod();
        proof {
            lemma_hilbert_deinterleave_bound(idx_code(hilbert@) as nat, 16);
            lemma_two_pow_16();
        }
        let r = Index64::new(frame, tier, lod, x, y, z);
        match r {
            Ok(k) => {
                proof {
                    let target = Index64::spec_from_raw(hilbert_to_index(hilbert@));
                    Index64::lemma_spec_from_raw(hilbert_to_index(hilbert@));
                    Index64::lemma_view_eq(k, target);
                }
                k
            },
            Err(_) => {
                proof { assert(false); }
                Index64::from_raw(0)
            },
        }
    }
}

impl FromSpecImpl<Hilbert64> for Index64 {
    open spec fn obeys_from_spec() -> bool {
        true
    }

    closed spec fn from_spec(hilbert: Hilbert64) -> Index64 {
        Index64::spec_from_raw(hilbert_to_index(hilbert@))
    }
}

} // verus!
