//! 128-bit cell identifiers with an 8-bit CRC checksum (older identifier format).

use vstd::prelude::*;
use crate::bytes::{be_bytes_u128, lemma_u128_be_roundtrip, u128_from_be, u128_from_be_slice, u128_to_be_bytes};
use crate::bech32m::{bech32_decode, bech32_decoding, bech32m_encode, bech32m_encoding, lowercase_hrp};
use crate::error::{Error, Result};
use crate::text::{numbered, push_text};
use crate::lattice::{
    children_fit, child_of, coord_unchecked, is_bcc, neighbor_of, neighbor_offset, neighbors_fit, parent_of,
    Lattice, LatticeCoord, Parity,
};

verus! {

/// Smallest coordinate a cell identifier holds (24-bit signed).
pub const MIN_COORD_24BIT: i32 = -8388608;
/// Largest coordinate a cell identifier holds (24-bit signed).
pub const MAX_COORD_24BIT: i32 = 8388607;

/// The coordinate fits in 24 signed bits.
pub open spec fn in_24bit_range(c: int) -> bool {
    -8388608 <= c <= 8388607
}

/// One shift round of CRC-8 with polynomial x^8 + x^2 + x + 1.
pub open spec fn crc8_shift(c: u8) -> u8 {
    if c & 0x80 != 0 { ((c << 1u8) ^ 0x07) } else { c << 1u8 }
}

/// `n` shift rounds.
pub open spec fn crc8_rounds(c: u8, n: nat) -> u8
    decreases n,
{
    if n == 0 { c } else { crc8_rounds(crc8_shift(c), (n - 1) as nat) }
}

/// CRC-8 state after feeding one byte.
pub open spec fn crc8_byte(crc: u8, byte: u8) -> u8 {
    crc8_rounds(crc ^ byte, 8)
}

/// Byte `k` of a 128-bit value, little-endian.
pub open spec fn le_byte(v: u128, k: nat) -> u8 {
    (v >> (8 * k) as u128) as u8
}

/// CRC-8 (initial value 0) of the low `n` little-endian bytes of `v`.
pub open spec fn crc8_low_bytes(v: u128, n: nat) -> u8
    decreases n,
{
    if n == 0 { 0 } else { crc8_byte(crc8_low_bytes(v, (n - 1) as nat), le_byte(v, (n - 1) as nat)) }
}

/// Checksum of a cell value: CRC-8 of its low 15 bytes.
pub open spec fn checksum_spec(v: u128) -> u8 {
    crc8_low_bytes(v, 15)
}

/// Bits 7..0: frame.
pub open spec fn cell_frame(v: u128) -> u8 {
    (v & 0xFF) as u8
}

/// Bits 15..8: resolution.
pub open spec fn cell_resolution(v: u128) -> u8 {
    ((v >> 8u128) & 0xFF) as u8
}

/// Bits 19..16: exponent.
pub open spec fn cell_exponent(v: u128) -> u8 {
    ((v >> 16u128) & 0x0F) as u8
}

/// Bits 23..20: flags.
pub open spec fn cell_flags(v: u128) -> u8 {
    ((v >> 20u128) & 0x0F) as u8
}

/// Sign extension of a 24-bit two's complement value.
pub open spec fn sign_extend_24(raw: u32) -> i32 {
    if raw & 0x0080_0000 != 0 { (raw | 0xFF00_0000) as i32 } else { raw as i32 }
}

/// Bits 71..48: X.
pub open spec fn cell_x(v: u128) -> i32 {
    sign_extend_24(((v >> 48u128) & 0x00FF_FFFF) as u32)
}

/// Bits 95..72: Y.
pub open spec fn cell_y(v: u128) -> i32 {
    sign_extend_24(((v >> 72u128) & 0x00FF_FFFF) as u32)
}

/// Bits 119..96: Z.
pub open spec fn cell_z(v: u128) -> i32 {
    sign_extend_24(((v >> 96u128) & 0x00FF_FFFF) as u32)
}

/// Bits 127..120: checksum.
pub open spec fn cell_checksum(v: u128) -> u8 {
    ((v >> 120u128) & 0xFF) as u8
}

/// The fields of a cell value below the checksum.
pub open spec fn cell_body(frame: u8, resolution: u8, x: i32, y: i32, z: i32, exponent: u8, flags: u8) -> u128 {
    ((frame as u128) & 0xFF) | (((resolution as u128) & 0xFF) << 8u128) | ((((exponent & 0x0F)
        as u128) & 0x0F) << 16u128) | ((((flags & 0x0F) as u128) & 0x0F) << 20u128) | ((((
    x as u32) & 0x00FF_FFFF) as u128) << 48u128) | ((((y as u32) & 0x00FF_FFFF) as u128)
        << 72u128) | ((((z as u32) & 0x00FF_FFFF) as u128) << 96u128)
}

/// The full cell value: body plus checksum in the top byte.
pub open spec fn cell_value(frame: u8, resolution: u8, x: i32, y: i32, z: i32, exponent: u8, flags: u8) -> u128 {
    let body = cell_body(frame, resolution, x, y, z, exponent, flags);
    body | ((checksum_spec(body) as u128) << 120u128)
}

/// The value without its checksum byte.
pub open spec fn without_checksum(v: u128) -> u128 {
    v & !(0xFFu128 << 120u128)
}

/// The stored checksum agrees with the recomputed one.
pub open spec fn checksum_valid(v: u128) -> bool {
    cell_checksum(v) == checksum_spec(without_checksum(v))
}

proof fn lemma_cell_fields(frame: u8, resolution: u8, x: i32, y: i32, z: i32, exponent: u8, flags: u8)
    requires
        in_24bit_range(x as int),
        in_24bit_range(y as int),
        in_24bit_range(z as int),
    ensures
        ({
            let body = cell_body(frame, resolution, x, y, z, exponent, flags);
            let v = cell_value(frame, resolution, x, y, z, exponent, flags);
            &&& cell_frame(v) == frame
            &&& cell_resolution(v) == resolution
            &&& cell_exponent(v) == exponent & 0x0F
            &&& cell_flags(v) == flags & 0x0F
            &&& cell_x(v) == x
            &&& cell_y(v) == y
            &&& cell_z(v) == z
            &&& cell_checksum(v) == checksum_spec(body)
            &&& without_checksum(v) == body
            &&& checksum_valid(v)
        }),
{
    let body = cell_body(frame, resolution, x, y, z, exponent, flags);
    let c = checksum_spec(body);
    let v = body | ((c as u128) << 120u128);
    assert({
        &&& cell_frame(v) == frame
        &&& cell_resolution(v) == resolution
        &&& cell_exponent(v) == exponent & 0x0F
        &&& cell_flags(v) == flags & 0x0F
        &&& cell_x(v) == x
        &&& cell_y(v) == y
        &&& cell_z(v) == z
        &&& cell_checksum(v) == c
        &&& without_checksum(v) == body
    }) by (bit_vector)
        requires
            body == cell_body(frame, resolution, x, y, z, exponent, flags),
            v == body | ((c as u128) << 120u128),
            -8388608 <= x <= 8388607,
            -8388608 <= y <= 8388607,
            -8388608 <= z <= 8388607;
}

/// Decoded coordinates always fit in 24 signed bits.
pub proof fn lemma_cell_coords_in_range(v: u128)
    ensures
        in_24bit_range(cell_x(v) as int),
        in_24bit_range(cell_y(v) as int),
        in_24bit_range(cell_z(v) as int),
{
    assert(forall|r: u32| r < 0x0100_0000 ==> -8388608 <= #[trigger] sign_extend_24(r) <= 8388607)
        by (bit_vector);
    let a = ((v >> 48u128) & 0x00FF_FFFF) as u32;
    let b = ((v >> 72u128) & 0x00FF_FFFF) as u32;
    let c = ((v >> 96u128) & 0x00FF_FFFF) as u32;
    assert(a < 0x0100_0000 && b < 0x0100_0000 && c < 0x0100_0000) by (bit_vector)
        requires a == ((v >> 48u128) & 0x00FF_FFFF) as u32, b == ((v >> 72u128) & 0x00FF_FFFF) as u32,
            c == ((v >> 96u128) & 0x00FF_FFFF) as u32;
}

/// 128-bit cell identifier.
///
/// Bit layout, least significant first: frame (8), resolution (8), exponent (4),
/// flags (4), reserved (24, zero), X (24, signed), Y (24, signed), Z (24, signed),
/// CRC-8 checksum of the low 15 bytes (8).
#[derive(Debug, Clone, Copy, PartialEq, Eq, Hash, PartialOrd, Ord, Structural)]
pub struct CellID {
    value: u128,
}

impl View for CellID {
    type V = u128;

    closed spec fn view(&self) -> u128 {
        self.value
    }
}

/// The result of creating a cell at the given coordinates.
pub open spec fn cell_new_result(frame: u8, resolution: u8, x: i32, y: i32, z: i32, exponent: u8, flags: u8) -> Option<u128> {
    if in_24bit_range(x as int) && in_24bit_range(y as int) && in_24bit_range(z as int) && is_bcc(
        x as int,
        y as int,
        z as int,
    ) {
        Some(cell_value(frame, resolution, x, y, z, exponent, flags))
    } else {
        None
    }
}

impl CellID {
    /// Creates a cell identifier, checking the 24-bit range and the parity.
    pub fn new(
        frame: u8,
        resolution: u8,
        x: i32,
        y: i32,
        z: i32,
        exponent: u8,
        flags: u8,
    ) -> (r: Result<Self>)
        ensures
            !in_24bit_range(x as int) ==> r == Err::<CellID, Error>(
                Error::CoordinateOutOfRange { coord: x, bits: 24 },
            ),
            in_24bit_range(x as int) && !in_24bit_range(y as int) ==> r == Err::<CellID, Error>(
                Error::CoordinateOutOfRange { coord: y, bits: 24 },
            ),
            in_24bit_range(x as int) && in_24bit_range(y as int) && !in_24bit_range(z as int) ==> r
                == Err::<CellID, Error>(Error::CoordinateOutOfRange { coord: z, bits: 24 }),
            in_24bit_range(x as int) && in_24bit_range(y as int) && in_24bit_range(z as int)
                && !is_bcc(x as int, y as int, z as int) ==> r == Err::<CellID, Error>(
                Error::InvalidParity { x, y, z },
            ),
            cell_new_result(frame, resolution, x, y, z, exponent, flags) matches Some(v) ==> (
            r matches Ok(c) && c@ == v && cell_frame(v) == frame && cell_resolution(v) == resolution
                && cell_exponent(v) == exponent & 0x0F && cell_flags(v) == flags & 0x0F
                && cell_x(v) == x && cell_y(v) == y && cell_z(v) == z && checksum_valid(v)),
    {
        if x < MIN_COORD_24BIT || x > MAX_COORD_24BIT {
            return Err(Error::CoordinateOutOfRange { coord: x, bits: 24 });
        }
        if y < MIN_COORD_24BIT || y > MAX_COORD_24BIT {
            return Err(Error::CoordinateOutOfRange { coord: y, bits: 24 });
        }
        if z < MIN_COORD_24BIT || z > MAX_COORD_24BIT {
            return Err(Error::CoordinateOutOfRange { coord: z, bits: 24 });
        }
        Parity::from_coords(x, y, z)?;
        let body: u128 = ((frame as u128) & 0xFF) | (((resolution as u128) & 0xFF) << 8u128) | ((((
        exponent & 0x0F) as u128) & 0x0F) << 16u128) | ((((flags & 0x0F) as u128) & 0x0F) << 20u128) | ((((
        x as u32) & 0x00FF_FFFF) as u128) << 48u128) | ((((y as u32) & 0x00FF_FFFF) as u128)
            << 72u128) | ((((z as u32) & 0x00FF_FFFF) as u128) << 96u128);
        let checksum = Self::compute_checksum(body);
        let value = body | ((checksum as u128) << 120u128);
        proof {
            lemma_cell_fields(frame, resolution, x, y, z, exponent, flags);
        }
        Ok(Self { value })
    }

    /// Creates a cell from frame, resolution and coordinates (exponent and flags 0).
    pub fn from_coords(frame: u8, resolution: u8, x: i32, y: i32, z: i32) -> (r: Result<Self>)
        ensures
            cell_new_result(frame, resolution, x, y, z, 0, 0) matches Some(v) ==> (r matches Ok(c) && c@ == v),
            cell_new_result(frame, resolution, x, y, z, 0, 0) is None ==> r is Err,
            !is_bcc(x as int, y as int, z as int) && in_24bit_range(x as int) && in_24bit_range(y as int)
                && in_24bit_range(z as int) ==> r == Err::<CellID, Error>(Error::InvalidParity { x, y, z }),
    {
        Self::new(frame, resolution, x, y, z, 0, 0)
    }

    /// Creates a cell from a lattice coordinate (exponent and flags 0).
    pub fn from_lattice_coord(frame: u8, resolution: u8, coord: &LatticeCoord) -> (r: Result<Self>)
        ensures
            cell_new_result(frame, resolution, coord.x, coord.y, coord.z, 0, 0) matches Some(v) ==> (r matches Ok(c) && c@ == v),
            cell_new_result(frame, resolution, coord.x, coord.y, coord.z, 0, 0) is None ==> r is Err,
    {
        Self::new(frame, resolution, coord.x, coord.y, coord.z, 0, 0)
    }

    /// Frame field.
    pub fn frame(&self) -> (r: u8)
        ensures
            r == cell_frame(self@),
    {
        (self.value & 0xFF) as u8
    }

    /// Resolution field.
    pub fn resolution(&self) -> (r: u8)
        ensures
            r == cell_resolution(self@),
    {
        ((self.value >> 8u128) & 0xFF) as u8
    }

    /// Exponent field.
    pub fn exponent(&self) -> (r: u8)
        ensures
            r == cell_exponent(self@),
    {
        ((self.value >> 16u128) & 0x0F) as u8
    }

    /// Flags field.
    pub fn flags(&self) -> (r: u8)
        ensures
            r == cell_flags(self@),
    {
        ((self.value >> 20u128) & 0x0F) as u8
    }

    /// X coordinate.
    pub fn x(&self) -> (r: i32)
        ensures
            r == cell_x(self@),
            in_24bit_range(r as int),
    {
        proof { lemma_cell_coords_in_range(self.value); }
        let raw = ((self.value >> 48u128) & 0x00FF_FFFF) as u32;
        if raw & 0x0080_0000 != 0 { (raw | 0xFF00_0000) as i32 } else { raw as i32 }
    }

    /// Y coordinate.
    pub fn y(&self) -> (r: i32)
        ensures
            r == cell_y(self@),
            in_24bit_range(r as int),
    {
        proof { lemma_cell_coords_in_range(self.value); }
        let raw = ((self.value >> 72u128) & 0x00FF_FFFF) as u32;
        if raw & 0x0080_0000 != 0 { (raw | 0xFF00_0000) as i32 } else { raw as i32 }
    }

    /// Z coordinate.
    pub fn z(&self) -> (r: i32)
        ensures
            r == cell_z(self@),
            in_24bit_range(r as int),
    {
        proof { lemma_cell_coords_in_range(self.value); }
        let raw = ((self.value >> 96u128) & 0x00FF_FFFF) as u32;
        if raw & 0x0080_0000 != 0 { (raw | 0xFF00_0000) as i32 } else { raw as i32 }
    }

    /// Stored checksum.
    pub fn checksum(&self) -> (r: u8)
        ensures
            r == cell_checksum(self@),
    {
        ((self.value >> 120u128) & 0xFF) as u8
    }

    /// The coordinates as a lattice coordinate.
    pub fn lattice_coord(&self) -> (r: Result<LatticeCoord>)
        ensures
            ({
                let (x, y, z) = (cell_x(self@), cell_y(self@), cell_z(self@));
                &&& is_bcc(x as int, y as int, z as int) ==> r == Ok::<LatticeCoord, Error>(
                    coord_unchecked(x as int, y as int, z as int),
                )
                &&& !is_bcc(x as int, y as int, z as int) ==> r == Err::<LatticeCoord, Error>(
                    Error::InvalidParity { x, y, z },
                )
            }),
    {
        LatticeCoord::new(self.x(), self.y(), self.z())
    }

    /// Checks the stored checksum against the recomputed one.
    pub fn validate_checksum(&self) -> (r: Result<()>)
        ensures
            checksum_valid(self@) ==> r is Ok,
            !checksum_valid(self@) ==> r == Err::<(), Error>(
                Error::ChecksumMismatch {
                    expected: checksum_spec(without_checksum(self@)),
                    actual: cell_checksum(self@),
                },
            ),
    {
        let stored_checksum = self.checksum();
        let value_without_checksum = self.value & !(0xFFu128 << 120u128);
        let computed_checksum = Self::compute_checksum(value_without_checksum);
        if stored_checksum == computed_checksum {
            Ok(())
        } else {
            Err(Error::ChecksumMismatch { expected: computed_checksum, actual: stored_checksum })
        }
    }

    /// CRC-8 (polynomial 0x07) of the low 15 little-endian bytes of `value`.
    fn compute_checksum(value: u128) -> (r: u8)
        ensures
            r == checksum_spec(value),
    {
        let mut crc: u8 = 0;
        let mut k: u32 = 0;
        while k < 15
            invariant
                k <= 15,
                crc == crc8_low_bytes(value, k as nat),
            decreases 15 - k,
        {
            let byte = (value >> (8 * k) as u128) as u8;
            crc = crc ^ byte;
            let ghost start = crc;
            let mut round: u32 = 0;
            while round < 8
                invariant
                    round <= 8,
                    crc8_rounds(crc, (8 - round) as nat) == crc8_rounds(start, 8),
                decreases 8 - round,
            {
                if crc & 0x80 != 0 {
                    crc = (crc << 1u8) ^ 0x07;
                } else {
                    crc = crc << 1u8;
                }
                round = round + 1;
            }
            k = k + 1;
        }
        crc
    }

    /// The cell with the given raw value, as stored by a collection of cells.
    pub(crate) fn from_stored_value(value: u128) -> (r: Self)
        ensures
            r@ == value,
    {
        Self { value }
    }

    /// Raw 128-bit value.
    pub fn raw_value(&self) -> (r: u128)
        ensures
            r == self@,
    {
        self.value
    }

    /// Two cells with the same raw value are equal.
    pub proof fn lemma_view_eq(a: Self, b: Self)
        requires
            a@ == b@,
        ensures
            a == b,
    {
    }
}

/// The lattice coordinate of a cell value.
pub open spec fn cell_coord(v: u128) -> LatticeCoord {
    coord_unchecked(cell_x(v) as int, cell_y(v) as int, cell_z(v) as int)
}

/// The cell coordinates lie on the lattice.
pub open spec fn cell_on_lattice(v: u128) -> bool {
    is_bcc(cell_x(v) as int, cell_y(v) as int, cell_z(v) as int)
}

/// The cell that neighbour `i` of cell `v` would be, if it can be created.
pub open spec fn cell_neighbor(v: u128, i: int) -> Option<u128> {
    let n = neighbor_of(cell_coord(v), i);
    cell_new_result(cell_frame(v), cell_resolution(v), n.x, n.y, n.z, 0, 0)
}

/// The neighbours among the first `k` offsets that can be created, in order.
pub open spec fn cell_neighbors_upto(v: u128, k: int) -> Seq<u128>
    decreases k,
{
    if k <= 0 {
        Seq::empty()
    } else {
        match cell_neighbor(v, k - 1) {
            Some(n) => cell_neighbors_upto(v, k - 1).push(n),
            None => cell_neighbors_upto(v, k - 1),
        }
    }
}

/// The parent cell value of cell `v`, when it can be created.
pub open spec fn cell_parent(v: u128) -> Option<u128> {
    let p = parent_of(cell_coord(v));
    cell_new_result(cell_frame(v), (cell_resolution(v) - 1) as u8, p.x, p.y, p.z, 0, 0)
}

/// Child `i` of cell `v`, when it can be created.
pub open spec fn cell_child(v: u128, i: int) -> Option<u128> {
    let c = child_of(cell_coord(v), i);
    cell_new_result(cell_frame(v), (cell_resolution(v) + 1) as u8, c.x, c.y, c.z, 0, 0)
}

/// Raw values of a sequence of cells.
pub open spec fn cell_values(s: Seq<CellID>) -> Seq<u128> {
    s.map_values(|c: CellID| c@)
}

proof fn lemma_cell_coord_fits(v: u128)
    ensures
        neighbors_fit(cell_coord(v)),
        children_fit(cell_coord(v)),
        cell_coord(v).x == cell_x(v),
        cell_coord(v).y == cell_y(v),
        cell_coord(v).z == cell_z(v),
{
    lemma_cell_coords_in_range(v);
}

/// Every child of a cell that can be created has that cell as its parent:
/// the 8:1 refinement of the lattice carries over to cell identifiers.
pub proof fn lemma_cell_child_parent(frame: u8, res: u8, x: i32, y: i32, z: i32, i: int)
    requires
        cell_new_result(frame, res, x, y, z, 0, 0) is Some,
        res < 255,
        0 <= i < 8,
        cell_child(cell_new_result(frame, res, x, y, z, 0, 0)->0, i) is Some,
    ensures
        cell_parent(cell_child(cell_new_result(frame, res, x, y, z, 0, 0)->0, i)->0) == cell_new_result(
            frame,
            res,
            x,
            y,
            z,
            0,
            0,
        ),
{
    let v = cell_new_result(frame, res, x, y, z, 0, 0)->0;
    lemma_cell_fields(frame, res, x, y, z, 0, 0);
    lemma_cell_coord_fits(v);
    let p = cell_coord(v);
    assert(p.wf());
    crate::lattice::lemma_parent_of_child(p, i);
    let c = child_of(p, i);
    lemma_cell_fields(frame, (res + 1) as u8, c.x, c.y, c.z, 0, 0);
    let cv = cell_child(v, i)->0;
    assert(cell_coord(cv) == c);
    assert(parent_of(cell_coord(cv)) == p);
}

/// A cell on the lattice, two or more steps inside the 24-bit range on every
/// axis, has all 14 neighbours, one per offset in offset order.
pub proof fn lemma_cell_has_14_neighbors(v: u128)
    requires
        cell_on_lattice(v),
        -8388606 <= cell_x(v) <= 8388605,
        -8388606 <= cell_y(v) <= 8388605,
        -8388606 <= cell_z(v) <= 8388605,
    ensures
        cell_neighbors_upto(v, 14).len() == 14,
        forall|i: int| 0 <= i < 14 ==> cell_neighbor(v, i) == Some(#[trigger] cell_neighbors_upto(v, 14)[i]),
        forall|i: int| 0 <= i < 14 ==> cell_moved_by(v, #[trigger] cell_neighbors_upto(v, 14)[i], i),
{
    lemma_cell_neighbors_all(v, 14);
    assert forall|i: int| 0 <= i < 14 implies cell_moved_by(v, #[trigger] cell_neighbors_upto(v, 14)[i], i) by {
        lemma_cell_neighbor_moved(v, i);
    }
}

/// `w` is the cell `v` moved by neighbour offset `i`: the same frame and
/// resolution, each coordinate shifted by the offset.
pub open spec fn cell_moved_by(v: u128, w: u128, i: int) -> bool {
    &&& cell_frame(w) == cell_frame(v)
    &&& cell_resolution(w) == cell_resolution(v)
    &&& cell_x(w) == cell_x(v) + neighbor_offset(i).0
    &&& cell_y(w) == cell_y(v) + neighbor_offset(i).1
    &&& cell_z(w) == cell_z(v) + neighbor_offset(i).2
}

/// `w` is the cell `v` moved by one of the first `n` neighbour offsets.
pub open spec fn moved_by_one_of(v: u128, w: u128, n: int) -> bool {
    exists|i: int| 0 <= i < n && #[trigger] cell_moved_by(v, w, i)
}

/// Neighbour `i` of a cell, where it can be created, is the cell moved by
/// offset `i`; it can be created exactly when the moved coordinates stay in
/// the 24-bit range and on the lattice.
pub proof fn lemma_cell_neighbor_moved(v: u128, i: int)
    requires
        0 <= i < 14,
    ensures
        cell_neighbor(v, i) is Some <==> (in_24bit_range(cell_x(v) + neighbor_offset(i).0) && in_24bit_range(
            cell_y(v) + neighbor_offset(i).1,
        ) && in_24bit_range(cell_z(v) + neighbor_offset(i).2) && is_bcc(
            cell_x(v) + neighbor_offset(i).0,
            cell_y(v) + neighbor_offset(i).1,
            cell_z(v) + neighbor_offset(i).2,
        )),
        cell_neighbor(v, i) matches Some(w) ==> cell_moved_by(v, w, i),
{
    lemma_cell_coords_in_range(v);
    let n = neighbor_of(cell_coord(v), i);
    assert(n.x == cell_x(v) + neighbor_offset(i).0 || !in_24bit_range(cell_x(v) + neighbor_offset(i).0));
    if cell_neighbor(v, i) is Some {
        lemma_cell_fields(cell_frame(v), cell_resolution(v), n.x, n.y, n.z, 0, 0);
    }
}

/// The neighbours that `CellID::neighbors` lists are exactly the cells moved
/// by one of the 14 offsets that stay in range and on the lattice: each
/// listed cell is the cell moved by some offset, and each offset that stays
/// in range and on the lattice gives a listed cell.
pub proof fn lemma_cell_neighbors_moved(v: u128)
    ensures
        forall|k: int| 0 <= k < cell_neighbors_upto(v, 14).len() ==> moved_by_one_of(v, #[trigger] cell_neighbors_upto(v, 14)[k], 14),
        forall|i: int|
            0 <= i < 14 && in_24bit_range(cell_x(v) + neighbor_offset(i).0) && in_24bit_range(
                cell_y(v) + neighbor_offset(i).1,
            ) && in_24bit_range(cell_z(v) + neighbor_offset(i).2) && is_bcc(
                cell_x(v) + neighbor_offset(i).0,
                cell_y(v) + neighbor_offset(i).1,
                cell_z(v) + neighbor_offset(i).2,
            ) ==> exists|k: int|
                0 <= k < cell_neighbors_upto(v, 14).len() && #[trigger] cell_moved_by(
                    v,
                    cell_neighbors_upto(v, 14)[k],
                    i,
                ),
{
    lemma_cell_neighbors_moved_upto(v, 14);
    assert forall|i: int|
        0 <= i < 14 && in_24bit_range(cell_x(v) + neighbor_offset(i).0) && in_24bit_range(
            cell_y(v) + neighbor_offset(i).1,
        ) && in_24bit_range(cell_z(v) + neighbor_offset(i).2) && is_bcc(
            cell_x(v) + neighbor_offset(i).0,
            cell_y(v) + neighbor_offset(i).1,
            cell_z(v) + neighbor_offset(i).2,
        ) implies exists|k: int|
            0 <= k < cell_neighbors_upto(v, 14).len() && #[trigger] cell_moved_by(
                v,
                cell_neighbors_upto(v, 14)[k],
                i,
            ) by {
        lemma_cell_neighbor_moved(v, i);
        assert(cell_neighbor(v, i) is Some);
        let k = choose|k: int|
            0 <= k < cell_neighbors_upto(v, 14).len() && cell_neighbors_upto(v, 14)[k] == cell_neighbor(v, i)->0;
        assert(cell_moved_by(v, cell_neighbors_upto(v, 14)[k], i));
    }
}

proof fn lemma_cell_neighbors_moved_upto(v: u128, n: int)
    requires
        0 <= n <= 14,
    ensures
        forall|k: int| 0 <= k < cell_neighbors_upto(v, n).len() ==> moved_by_one_of(v, #[trigger] cell_neighbors_upto(v, n)[k], n),
        forall|i: int|
            0 <= i < n && #[trigger] cell_neighbor(v, i) is Some ==> exists|k: int|
                0 <= k < cell_neighbors_upto(v, n).len() && cell_neighbors_upto(v, n)[k] == cell_neighbor(v, i)->0,
        forall|i: int| 0 <= i < n && #[trigger] cell_neighbor(v, i) is Some ==> cell_moved_by(v, cell_neighbor(v, i)->0, i),
    decreases n,
{
    if n == 0 {
        assert(cell_neighbors_upto(v, 0) =~= Seq::<u128>::empty());
    } else {
        lemma_cell_neighbors_moved_upto(v, n - 1);
        lemma_cell_neighbor_moved(v, n - 1);
        let prev = cell_neighbors_upto(v, n - 1);
        let cur = cell_neighbors_upto(v, n);
        if cell_neighbor(v, n - 1) is Some {
            assert(cur == prev.push(cell_neighbor(v, n - 1)->0));
            assert forall|k: int| 0 <= k < cur.len() implies moved_by_one_of(v, #[trigger] cur[k], n) by {
                if k < prev.len() {
                    assert(cur[k] == prev[k]);
                    assert(moved_by_one_of(v, prev[k], n - 1));
                    let i = choose|i: int| 0 <= i < n - 1 && #[trigger] cell_moved_by(v, prev[k], i);
                    assert(0 <= i < n && cell_moved_by(v, cur[k], i));
                } else {
                    assert(cell_moved_by(v, cur[k], n - 1));
                }
            }
            assert forall|i: int| 0 <= i < n && #[trigger] cell_neighbor(v, i) is Some implies exists|k: int|
                0 <= k < cur.len() && cur[k] == cell_neighbor(v, i)->0 by {
                if i < n - 1 {
                    let k = choose|k: int| 0 <= k < prev.len() && prev[k] == cell_neighbor(v, i)->0;
                    assert(cur[k] == prev[k]);
                } else {
                    assert(cur[prev.len() as int] == cell_neighbor(v, i)->0);
                }
            }
            assert forall|i: int| 0 <= i < n && #[trigger] cell_neighbor(v, i) is Some implies cell_moved_by(
                v,
                cell_neighbor(v, i)->0,
                i,
            ) by {
                lemma_cell_neighbor_moved(v, i);
            }
        } else {
            assert(cur == prev);
            assert forall|k: int| 0 <= k < cur.len() implies moved_by_one_of(v, #[trigger] cur[k], n) by {
                assert(cur[k] == prev[k]);
                assert(moved_by_one_of(v, prev[k], n - 1));
                let i = choose|i: int| 0 <= i < n - 1 && #[trigger] cell_moved_by(v, prev[k], i);
                assert(0 <= i < n && cell_moved_by(v, cur[k], i));
            }
            assert forall|i: int| 0 <= i < n && #[trigger] cell_neighbor(v, i) is Some implies cell_moved_by(
                v,
                cell_neighbor(v, i)->0,
                i,
            ) by {
                lemma_cell_neighbor_moved(v, i);
            }
        }
    }
}

proof fn lemma_cell_neighbors_all(v: u128, k: int)
    requires
        cell_on_lattice(v),
        -8388606 <= cell_x(v) <= 8388605,
        -8388606 <= cell_y(v) <= 8388605,
        -8388606 <= cell_z(v) <= 8388605,
        0 <= k <= 14,
    ensures
        cell_neighbors_upto(v, k).len() == k,
        forall|i: int| 0 <= i < k ==> cell_neighbor(v, i) == Some(#[trigger] cell_neighbors_upto(v, k)[i]),
    decreases k,
{
    if k > 0 {
        lemma_cell_neighbors_all(v, k - 1);
        assert(cell_neighbor(v, k - 1) is Some);
        assert(cell_neighbors_upto(v, k) == cell_neighbors_upto(v, k - 1).push(cell_neighbor(v, k - 1)->0));
    }
}

/// Every neighbour that can be created lies on the lattice.
pub proof fn lemma_cell_neighbors_on_lattice(v: u128, k: int)
    ensures
        forall|j: int|
            0 <= j < cell_neighbors_upto(v, k).len() ==> cell_on_lattice(
                #[trigger] cell_neighbors_upto(v, k)[j],
            ),
    decreases k,
{
    if k > 0 {
        lemma_cell_neighbors_on_lattice(v, k - 1);
        let n = neighbor_of(cell_coord(v), k - 1);
        if cell_neighbor(v, k - 1) is Some {
            let w = cell_value(cell_frame(v), cell_resolution(v), n.x, n.y, n.z, 0, 0);
            assert(cell_neighbor(v, k - 1) == Some(w));
            lemma_cell_fields(cell_frame(v), cell_resolution(v), n.x, n.y, n.z, 0, 0);
            assert(cell_on_lattice(w));
            assert(cell_neighbors_upto(v, k) == cell_neighbors_upto(v, k - 1).push(w));
        } else {
            assert(cell_neighbors_upto(v, k) == cell_neighbors_upto(v, k - 1));
        }
    }
}

impl CellID {
    /// The neighbours of the cell that stay within the 24-bit range.
    pub fn neighbors(&self) -> (r: Vec<CellID>)
        requires
            cell_on_lattice(self@),
        ensures
            cell_values(r@) == cell_neighbors_upto(self@, 14),
            forall|k: int| 0 <= k < r@.len() ==> moved_by_one_of(self@, (#[trigger] r@[k])@, 14),
    {
        let coord = match self.lattice_coord() {
            Ok(c) => c,
            Err(_) => {
                proof { assert(false); }
                LatticeCoord::new_unchecked(0, 0, 0)
            },
        };
        proof { lemma_cell_coord_fits(self@); }
        let neighbors = Lattice::get_neighbors(&coord);
        let frame = self.frame();
        let resolution = self.resolution();
        let mut out: Vec<CellID> = Vec::new();
        let mut i: usize = 0;
        while i < 14
            invariant
                i <= 14,
                neighbors.len() == 14,
                coord == cell_coord(self@),
                frame == cell_frame(self@),
                resolution == cell_resolution(self@),
                forall|j: int| 0 <= j < 14 ==> neighbors[j] == neighbor_of(coord, j),
                cell_values(out@) == cell_neighbors_upto(self@, i as int),
            decreases 14 - i,
        {
            let ghost before = out@;
            match Self::from_lattice_coord(frame, resolution, &neighbors[i]) {
                Ok(n) => {
                    out.push(n);
                    assert(cell_values(out@) == cell_values(before).push(n@));
                },
                Err(_) => {},
            }
            i = i + 1;
        }
        proof {
            lemma_cell_neighbors_moved(self@);
            assert forall|k: int| 0 <= k < out@.len() implies moved_by_one_of(self@, (#[trigger] out@[k])@, 14) by {
                assert(cell_values(out@)[k] == out@[k]@);
            }
        }
        out
    }

    /// The cell one resolution coarser.
    pub fn parent(&self) -> (r: Result<CellID>)
        ensures
            cell_resolution(self@) == 0 ==> r == Err::<CellID, Error>(Error::NoParent),
            cell_resolution(self@) != 0 && !cell_on_lattice(self@) ==> r == Err::<CellID, Error>(
                Error::InvalidParity { x: cell_x(self@), y: cell_y(self@), z: cell_z(self@) },
            ),
            cell_resolution(self@) != 0 && cell_on_lattice(self@) ==> (match cell_parent(self@) {
                Some(p) => r matches Ok(c) && c@ == p,
                None => r is Err,
            }),
    {
        let resolution = self.resolution();
        if resolution == 0 {
            return Err(Error::NoParent);
        }
        let coord = self.lattice_coord()?;
        proof { lemma_cell_coord_fits(self@); }
        let parent_coord = Lattice::get_parent(&coord);
        Self::from_lattice_coord(self.frame(), resolution - 1, &parent_coord)
    }

    /// The 8 cells one resolution finer.
    pub fn children(&self) -> (r: Result<Vec<CellID>>)
        ensures
            cell_resolution(self@) == 255 ==> r == Err::<Vec<CellID>, Error>(Error::NoChildren),
            cell_resolution(self@) != 255 && !cell_on_lattice(self@) ==> r == Err::<Vec<CellID>, Error>(
                Error::InvalidParity { x: cell_x(self@), y: cell_y(self@), z: cell_z(self@) },
            ),
            cell_resolution(self@) != 255 && cell_on_lattice(self@) ==> (
                (forall|i: int| 0 <= i < 8 ==> #[trigger] cell_child(self@, i) is Some) ==> (r matches Ok(v)
                    && v.len() == 8 && forall|i: int| 0 <= i < 8 ==> Some(#[trigger] v[i]@) == cell_child(self@, i))),
            cell_resolution(self@) != 255 && cell_on_lattice(self@) ==> (
                (exists|i: int| 0 <= i < 8 && #[trigger] cell_child(self@, i) is None) ==> r is Err),
    {
        let resolution = self.resolution();
        if resolution == 255 {
            return Err(Error::NoChildren);
        }
        let coord = self.lattice_coord()?;
        proof { lemma_cell_coord_fits(self@); }
        let children_coords = Lattice::get_children(&coord);
        let frame = self.frame();
        let mut out: Vec<CellID> = Vec::with_capacity(8);
        let mut i: usize = 0;
        while i < 8
            invariant
                i <= 8,
                children_coords.len() == 8,
                coord == cell_coord(self@),
                frame == cell_frame(self@),
                resolution == cell_resolution(self@),
                resolution < 255,
                forall|j: int| 0 <= j < 8 ==> children_coords[j] == child_of(coord, j),
                out.len() == i,
                cell_on_lattice(self@),
                forall|j: int| 0 <= j < i ==> Some(out[j]@) == #[trigger] cell_child(self@, j),
            decreases 8 - i,
        {
            let c = match Self::from_lattice_coord(frame, resolution + 1, &children_coords[i]) {
                Ok(c) => c,
                Err(e) => {
                    assert(cell_child(self@, i as int) is None);
                    return Err(e);
                },
            };
            out.push(c);
            i = i + 1;
        }
        Ok(out)
    }

    /// Big-endian bytes of the raw value.
    pub fn to_bytes(&self) -> (r: [u8; 16])
        ensures
            r@ == be_bytes_u128(self@),
    {
        u128_to_be_bytes(self.value)
    }

    /// Cell from big-endian bytes, checking the checksum.
    pub fn from_bytes(bytes: [u8; 16]) -> (r: Result<Self>)
        ensures
            checksum_valid(u128_from_be(bytes@)) ==> (r matches Ok(c) && c@ == u128_from_be(bytes@)),
            !checksum_valid(u128_from_be(bytes@)) ==> r matches Err(Error::ChecksumMismatch { .. }),
    {
        let value = u128_from_be_slice(&bytes, 0);
        assert(bytes@.subrange(0, 16) =~= bytes@);
        let cell_id = Self { value };
        cell_id.validate_checksum()?;
        Ok(cell_id)
    }
}

/// The parent of every child of a cell is the cell itself.
pub proof fn lemma_cell_parent_of_child(v: u128, i: int)
    requires
        0 <= i < 8,
        cell_on_lattice(v),
        cell_exponent(v) == 0,
        cell_flags(v) == 0,
        cell_resolution(v) < 255,
        v == cell_value(cell_frame(v), cell_resolution(v), cell_x(v), cell_y(v), cell_z(v), 0, 0),
        cell_child(v, i) is Some,
    ensures
        cell_on_lattice(cell_child(v, i).unwrap()),
        cell_resolution(cell_child(v, i).unwrap()) == cell_resolution(v) + 1,
        cell_parent(cell_child(v, i).unwrap()) == Some(v),
{
    let p = cell_coord(v);
    lemma_cell_coord_fits(v);
    crate::lattice::lemma_parent_of_child(p, i);
    let c = child_of(p, i);
    let cv = cell_child(v, i).unwrap();
    lemma_cell_fields(cell_frame(v), (cell_resolution(v) + 1) as u8, c.x, c.y, c.z, 0, 0);
    lemma_cell_fields(cell_frame(v), cell_resolution(v), p.x, p.y, p.z, 0, 0);
    assert(cell_coord(cv) == c);
}

/// Writing a valid cell to bytes and reading it back gives the same cell.
pub proof fn lemma_cell_bytes_roundtrip(v: u128)
    ensures
        u128_from_be(be_bytes_u128(v)) == v,
{
    lemma_u128_be_roundtrip(v);
}

/// Bech32m human-readable part of a cell identifier.
/// `Invalid HRP: expected '<cell prefix>', got '<got>'`.
fn hrp_mismatch(got: &str) -> (s: String)
    ensures
        s@ == "Invalid HRP: expected '"@ + BECH32_HRP@ + "', got '"@ + got@ + "'"@,
{
    let mut s = String::new();
    push_text(&mut s, "Invalid HRP: expected '");
    push_text(&mut s, BECH32_HRP);
    push_text(&mut s, "', got '");
    push_text(&mut s, got);
    push_text(&mut s, "'");
    assert(s@ =~= "Invalid HRP: expected '"@ + BECH32_HRP@ + "', got '"@ + got@ + "'"@);
    s
}

pub const BECH32_HRP: &'static str = "cx3d";

impl CellID {
    /// Encodes the raw value, big-endian, as a Bech32m string.
    pub fn to_bech32m(&self) -> (r: Result<String>)
        ensures
            bech32m_encoding(BECH32_HRP@, be_bytes_u128(self@)) matches Some(t) ==> (r matches Ok(s) && s@ == t),
            bech32m_encoding(BECH32_HRP@, be_bytes_u128(self@)) is None ==> r matches Err(Error::EncodingError(_)),
    {
        let bytes = u128_to_be_bytes(self.value);
        match bech32m_encode(BECH32_HRP, &bytes) {
            Ok(s) => Ok(s),
            Err(e) => Err(Error::EncodingError(e)),
        }
    }

    /// Decodes a Bech32m string and checks the cell checksum.
    pub fn from_bech32m(s: &str) -> (r: Result<Self>)
        ensures
            bech32_decoding(s@) is None ==> r matches Err(Error::DecodingError(_)),
            bech32_decoding(s@) matches Some(p) ==> (p.0 != BECH32_HRP@ || p.1.len() != 16) ==> r matches Err(
                Error::DecodingError(_),
            ),
            bech32_decoding(s@) matches Some(p) ==> (p.0 == BECH32_HRP@ && p.1.len() == 16) ==> (
                checksum_valid(u128_from_be(p.1)) ==> (r matches Ok(c) && c@ == u128_from_be(p.1))),
            bech32_decoding(s@) matches Some(p) ==> (p.0 == BECH32_HRP@ && p.1.len() == 16) ==> (
                !checksum_valid(u128_from_be(p.1)) ==> r matches Err(Error::ChecksumMismatch { .. })),
            forall|v: u128|
                #![trigger bech32m_encoding(BECH32_HRP@, be_bytes_u128(v))]
                (r matches Ok(c) && c@ == v) || !checksum_valid(v) || bech32m_encoding(BECH32_HRP@, be_bytes_u128(v)) != Some(s@),
    {
        proof {
            reveal_strlit("cx3d");
            assert(lowercase_hrp(BECH32_HRP@));
            assert forall|v: u128| #[trigger] u128_from_be(be_bytes_u128(v)) == v by {
                lemma_u128_be_roundtrip(v);
            }
        }
        let parts = match bech32_decode(s) {
            Ok(p) => p,
            Err(e) => return Err(Error::DecodingError(e)),
        };
        if parts.hrp != BECH32_HRP.to_owned() {
            return Err(Error::DecodingError(hrp_mismatch(parts.hrp.as_str())));
        }
        if parts.data.len() != 16 {
            return Err(
                Error::DecodingError(
                    numbered("Invalid data length: expected 16 bytes, got ", parts.data.len() as i64, ""),
                ),
            );
        }
        let value = u128_from_be_slice(&parts.data, 0);
        assert(parts.data@.subrange(0, 16) =~= parts.data@);
        let cell_id = Self { value };
        cell_id.validate_checksum()?;
        Ok(cell_id)
    }
}

} // verus!
