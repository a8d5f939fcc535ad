//! Body-centred cubic (BCC) lattice geometry: parity, neighbours, and the
//! 8:1 parent/child refinement between resolutions.

use vstd::prelude::*;
use crate::error::{Error, Result};

verus! {

/// The 14 neighbour offsets of a BCC point: 8 diagonal (parity flipping)
/// followed by 6 axial (parity preserving).
pub const BCC_NEIGHBORS_14: [(i32, i32, i32); 14] = [
    (1, 1, 1),
    (1, 1, -1),
    (1, -1, 1),
    (1, -1, -1),
    (-1, 1, 1),
    (-1, 1, -1),
    (-1, -1, 1),
    (-1, -1, -1),
    (2, 0, 0),
    (-2, 0, 0),
    (0, 2, 0),
    (0, -2, 0),
    (0, 0, 2),
    (0, 0, -2),
];

/// Neighbour offset `i` (0 <= i < 14), as listed in [`BCC_NEIGHBORS_14`].
pub open spec fn neighbor_offset(i: int) -> (int, int, int) {
    if i == 0 { (1, 1, 1) }
    else if i == 1 { (1, 1, -1) }
    else if i == 2 { (1, -1, 1) }
    else if i == 3 { (1, -1, -1) }
    else if i == 4 { (-1, 1, 1) }
    else if i == 5 { (-1, 1, -1) }
    else if i == 6 { (-1, -1, 1) }
    else if i == 7 { (-1, -1, -1) }
    else if i == 8 { (2, 0, 0) }
    else if i == 9 { (-2, 0, 0) }
    else if i == 10 { (0, 2, 0) }
    else if i == 11 { (0, -2, 0) }
    else if i == 12 { (0, 0, 2) }
    else { (0, 0, -2) }
}

/// A step between nearest BCC lattice points: a diagonal step (±1, ±1, ±1),
/// or an axial step of length 2 along one axis.
pub open spec fn bcc_step(d: (int, int, int)) -> bool {
    ||| (d.0 == 1 || d.0 == -1) && (d.1 == 1 || d.1 == -1) && (d.2 == 1 || d.2 == -1)
    ||| (d.0 == 2 || d.0 == -2) && d.1 == 0 && d.2 == 0
    ||| d.0 == 0 && (d.1 == 2 || d.1 == -2) && d.2 == 0
    ||| d.0 == 0 && d.1 == 0 && (d.2 == 2 || d.2 == -2)
}

/// The 14 neighbour offsets are the 14 BCC steps, each exactly once: every
/// offset is a diagonal or an axial step, no two offsets are equal, and every
/// such step is one of them. The first eight are the diagonal steps and the
/// last six the axial ones.
pub proof fn lemma_neighbor_offsets_are_bcc_steps()
    ensures
        forall|i: int| 0 <= i < 14 ==> bcc_step(#[trigger] neighbor_offset(i)),
        forall|i: int, j: int| 0 <= i < 14 && 0 <= j < 14 && i != j ==> #[trigger] neighbor_offset(i) != #[trigger] neighbor_offset(j),
        forall|d: (int, int, int)| #[trigger] bcc_step(d) ==> exists|i: int| 0 <= i < 14 && neighbor_offset(i) == d,
        forall|i: int| 0 <= i < 8 ==> {
            let d = #[trigger] neighbor_offset(i);
            (d.0 == 1 || d.0 == -1) && (d.1 == 1 || d.1 == -1) && (d.2 == 1 || d.2 == -1)
        },
        forall|i: int| 8 <= i < 14 ==> {
            let d = #[trigger] neighbor_offset(i);
            ((d.0 == 2 || d.0 == -2) && d.1 == 0 && d.2 == 0) || (d.0 == 0 && (d.1 == 2 || d.1 == -2) && d.2 == 0) || (
            d.0 == 0 && d.1 == 0 && (d.2 == 2 || d.2 == -2))
        },
{
    assert forall|d: (int, int, int)| #[trigger] bcc_step(d) implies exists|i: int| 0 <= i < 14 && neighbor_offset(i) == d by {
        let i: int = if d.0 == 1 && d.1 == 1 && d.2 == 1 { 0 }
            else if d.0 == 1 && d.1 == 1 && d.2 == -1 { 1 }
            else if d.0 == 1 && d.1 == -1 && d.2 == 1 { 2 }
            else if d.0 == 1 && d.1 == -1 && d.2 == -1 { 3 }
            else if d.0 == -1 && d.1 == 1 && d.2 == 1 { 4 }
            else if d.0 == -1 && d.1 == 1 && d.2 == -1 { 5 }
            else if d.0 == -1 && d.1 == -1 && d.2 == 1 { 6 }
            else if d.0 == -1 && d.1 == -1 && d.2 == -1 { 7 }
            else if d.0 == 2 { 8 }
            else if d.0 == -2 { 9 }
            else if d.1 == 2 { 10 }
            else if d.1 == -2 { 11 }
            else if d.2 == 2 { 12 }
            else { 13 };
        assert(neighbor_offset(i) == d);
    }
}

/// Child offset `i` (0 <= i < 8) added to twice the parent coordinate.
pub open spec fn child_offset(i: int) -> (int, int, int) {
    if i == 0 { (0, 0, 0) }
    else if i == 1 { (2, 0, 0) }
    else if i == 2 { (0, 2, 0) }
    else if i == 3 { (0, 0, 2) }
    else if i == 4 { (1, 1, 1) }
    else if i == 5 { (1, 1, -1) }
    else if i == 6 { (1, -1, 1) }
    else { (1, -1, -1) }
}

/// `a` is even.
pub open spec fn is_even(a: int) -> bool {
    a % 2 == 0
}

/// The three coordinates share one parity: a point of the BCC lattice.
pub open spec fn is_bcc(x: int, y: int, z: int) -> bool {
    is_even(x) == is_even(y) && is_even(y) == is_even(z)
}

/// Parity type for BCC lattice coordinates.
#[derive(Debug, Clone, Copy, PartialEq, Eq, Hash, Structural)]
pub enum Parity {
    /// All coordinates even.
    Even,
    /// All coordinates odd.
    Odd,
}

/// The parity that an integer has.
pub open spec fn parity_of(a: int) -> Parity {
    if is_even(a) { Parity::Even } else { Parity::Odd }
}

proof fn lemma_i32_even(a: i32)
    ensures
        (a % 2 == 0) == is_even(a as int),
        ((a & 1) != 0) == !is_even(a as int),
        (a & 1) == 0 || (a & 1) == 1,
{
    assert(((a & 1) == 0 <==> a % 2 == 0) && ((a & 1) == 0 || (a & 1) == 1)) by (bit_vector);
}

/// Executable parity test of one coordinate.
pub(crate) fn i32_is_even(a: i32) -> (r: bool)
    ensures
        r == is_even(a as int),
{
    proof { lemma_i32_even(a); }
    a % 2 == 0
}

impl Parity {
    /// Checks that the coordinates share one parity and returns it.
    pub fn from_coords(x: i32, y: i32, z: i32) -> (r: Result<Self>)
        ensures
            is_bcc(x as int, y as int, z as int) ==> r == Ok::<Parity, Error>(parity_of(x as int)),
            !is_bcc(x as int, y as int, z as int) ==> r == Err::<Parity, Error>(
                Error::InvalidParity { x, y, z },
            ),
    {
        let x_even = i32_is_even(x);
        let y_even = i32_is_even(y);
        let z_even = i32_is_even(z);
        if x_even == y_even && y_even == z_even {
            Ok(if x_even { Parity::Even } else { Parity::Odd })
        } else {
            Err(Self::invalid_parity_error(x, y, z))
        }
    }

    /// Builds the error for mixed parity.
    fn invalid_parity_error(x: i32, y: i32, z: i32) -> (e: Error)
        ensures
            e == (Error::InvalidParity { x, y, z }),
    {
        Error::InvalidParity { x, y, z }
    }

    /// The other parity.
    pub fn opposite(self) -> (r: Self)
        ensures
            r != self,
    {
        match self {
            Parity::Even => Parity::Odd,
            Parity::Odd => Parity::Even,
        }
    }
}

/// A coordinate of the BCC lattice, with the parity recorded beside it.
#[derive(Debug, Clone, Copy, PartialEq, Eq, Hash, Structural)]
pub struct LatticeCoord {
    /// X coordinate.
    pub x: i32,
    /// Y coordinate.
    pub y: i32,
    /// Z coordinate.
    pub z: i32,
    /// Parity of the coordinates.
    pub parity: Parity,
}

/// The coordinate that `new_unchecked` builds: the parity is taken from `x`.
pub open spec fn coord_unchecked(x: int, y: int, z: int) -> LatticeCoord {
    LatticeCoord { x: x as i32, y: y as i32, z: z as i32, parity: parity_of(x) }
}

/// `v` fits in an `i32`.
pub open spec fn fits_i32(v: int) -> bool {
    i32::MIN <= v <= i32::MAX
}

impl LatticeCoord {
    /// The coordinate is a lattice point and its parity field agrees with it.
    pub open spec fn wf(self) -> bool {
        &&& is_bcc(self.x as int, self.y as int, self.z as int)
        &&& self.parity == parity_of(self.x as int)
    }

    /// Creates a lattice coordinate, checking that the parities agree.
    pub fn new(x: i32, y: i32, z: i32) -> (r: Result<Self>)
        ensures
            is_bcc(x as int, y as int, z as int) ==> r == Ok::<LatticeCoord, Error>(
                coord_unchecked(x as int, y as int, z as int),
            ),
            !is_bcc(x as int, y as int, z as int) ==> r == Err::<LatticeCoord, Error>(
                Error::InvalidParity { x, y, z },
            ),
    {
        let parity = Parity::from_coords(x, y, z)?;
        Ok(Self { x, y, z, parity })
    }

    /// Creates a coordinate without validation; the parity is taken from `x`.
    pub fn new_unchecked(x: i32, y: i32, z: i32) -> (r: Self)
        ensures
            r == coord_unchecked(x as int, y as int, z as int),
    {
        let parity = if i32_is_even(x) {
            Parity::Even
        } else {
            Parity::Odd
        };
        Self { x, y, z, parity }
    }

    /// Manhattan distance to another lattice point.
    pub fn manhattan_distance_to(&self, other: &LatticeCoord) -> (r: i32)
        requires
            fits_i32(manhattan(*self, *other)),
            fits_i32(self.x - other.x),
            fits_i32(self.y - other.y),
            fits_i32(self.z - other.z),
            self.x - other.x != i32::MIN,
            self.y - other.y != i32::MIN,
            self.z - other.z != i32::MIN,
        ensures
            r == manhattan(*self, *other),
    {
        abs_i32(self.x - other.x) + abs_i32(self.y - other.y) + abs_i32(self.z - other.z)
    }

    /// Multiplies every coordinate by `factor`.
    pub fn scale(&self, factor: i32) -> (r: Self)
        requires
            fits_i32(self.x * factor),
            fits_i32(self.y * factor),
            fits_i32(self.z * factor),
        ensures
            r == coord_unchecked(self.x * factor, self.y * factor, self.z * factor),
    {
        Self::new_unchecked(self.x * factor, self.y * factor, self.z * factor)
    }

    /// Halves every coordinate, rounding toward zero.
    pub fn half(&self) -> (r: Self)
        ensures
            r == coord_unchecked(
                trunc_half(self.x as int),
                trunc_half(self.y as int),
                trunc_half(self.z as int),
            ),
    {
        Self::new_unchecked(self.x / 2, self.y / 2, self.z / 2)
    }
}

/// Absolute value.
pub open spec fn abs(a: int) -> int {
    if a < 0 { -a } else { a }
}

/// Manhattan distance between two coordinates.
pub open spec fn manhattan(a: LatticeCoord, b: LatticeCoord) -> int {
    abs(a.x - b.x) + abs(a.y - b.y) + abs(a.z - b.z)
}

/// Half of `a`, rounded toward zero (what `/ 2` does on machine integers).
pub open spec fn trunc_half(a: int) -> int {
    if a >= 0 { a / 2 } else { -((-a) / 2) }
}

fn abs_i32(a: i32) -> (r: i32)
    requires
        a != i32::MIN,
    ensures
        r == abs(a as int),
{
    if a < 0 { -a } else { a }
}

/// Utility functions on the lattice.
pub struct Lattice;

/// Neighbour `i` of `c`.
pub open spec fn neighbor_of(c: LatticeCoord, i: int) -> LatticeCoord {
    coord_unchecked(
        c.x + neighbor_offset(i).0,
        c.y + neighbor_offset(i).1,
        c.z + neighbor_offset(i).2,
    )
}

/// Child `i` of `c`: twice the coordinate plus the child offset.
pub open spec fn child_of(c: LatticeCoord, i: int) -> LatticeCoord {
    coord_unchecked(
        2 * c.x + child_offset(i).0,
        2 * c.y + child_offset(i).1,
        2 * c.z + child_offset(i).2,
    )
}

/// All children of `c` stay inside the `i32` range.
pub open spec fn children_fit(c: LatticeCoord) -> bool {
    &&& fits_i32(2 * c.x - 1) && fits_i32(2 * c.x + 2)
    &&& fits_i32(2 * c.y - 1) && fits_i32(2 * c.y + 2)
    &&& fits_i32(2 * c.z - 1) && fits_i32(2 * c.z + 2)
}

/// All neighbours of `c` stay inside the `i32` range.
pub open spec fn neighbors_fit(c: LatticeCoord) -> bool {
    &&& fits_i32(c.x - 2) && fits_i32(c.x + 2)
    &&& fits_i32(c.y - 2) && fits_i32(c.y + 2)
    &&& fits_i32(c.z - 2) && fits_i32(c.z + 2)
}

/// Odd-parity parent candidate along one axis: of the two halvings of the
/// odd coordinate `c`, the one whose parity matches `target_odd`.
pub open spec fn pick_half(c: int, target_odd: bool) -> int {
    let lo = trunc_half(c - 1);
    if !is_even(lo) == target_odd { lo } else { lo + 1 }
}

/// The parent that [`Lattice::get_parent`] computes.
pub open spec fn parent_of(c: LatticeCoord) -> LatticeCoord {
    match c.parity {
        Parity::Even => {
            let qx = trunc_half(c.x as int);
            let qy = trunc_half(c.y as int);
            let qz = trunc_half(c.z as int);
            let ox = !is_even(qx);
            let oy = !is_even(qy);
            let oz = !is_even(qz);
            let count = (if ox { 1int } else { 0 }) + (if oy { 1int } else { 0 }) + (if oz {
                1int
            } else {
                0
            });
            if count == 0 || count == 3 {
                coord_unchecked(qx, qy, qz)
            } else if count == 1 {
                coord_unchecked(
                    qx - (if ox { 1int } else { 0 }),
                    qy - (if oy { 1int } else { 0 }),
                    qz - (if oz { 1int } else { 0 }),
                )
            } else {
                coord_unchecked(
                    qx - (if ox { 0int } else { 1 }),
                    qy - (if oy { 0int } else { 1 }),
                    qz - (if oz { 0int } else { 1 }),
                )
            }
        },
        Parity::Odd => {
            let px = trunc_half(c.x - 1);
            let t = !is_even(px);
            coord_unchecked(px, pick_half(c.y as int, t), pick_half(c.z as int, t))
        },
    }
}

impl Lattice {
    /// Whether the coordinates form a BCC lattice point.
    pub fn is_valid_lattice_point(x: i32, y: i32, z: i32) -> (r: bool)
        ensures
            r == is_bcc(x as int, y as int, z as int),
    {
        Parity::from_coords(x, y, z).is_ok()
    }

    /// The 14 neighbours of a coordinate, in the order of [`BCC_NEIGHBORS_14`].
    pub fn get_neighbors(coord: &LatticeCoord) -> (r: Vec<LatticeCoord>)
        requires
            neighbors_fit(*coord),
        ensures
            r.len() == 14,
            forall|i: int| 0 <= i < 14 ==> r[i] == neighbor_of(*coord, i),
    {
        let mut out: Vec<LatticeCoord> = Vec::with_capacity(14);
        let mut i: usize = 0;
        while i < 14
            invariant
                0 <= i <= 14,
                neighbors_fit(*coord),
                out.len() == i,
                forall|j: int| 0 <= j < i ==> out[j] == neighbor_of(*coord, j),
            decreases 14 - i,
        {
            let (dx, dy, dz) = BCC_NEIGHBORS_14[i];
            assert(dx == neighbor_offset(i as int).0 && dy == neighbor_offset(i as int).1
                && dz == neighbor_offset(i as int).2);
            out.push(LatticeCoord::new_unchecked(coord.x + dx, coord.y + dy, coord.z + dz));
            i = i + 1;
        }
        out
    }

    /// The 8 children of a coordinate at the next finer resolution.
    pub fn get_children(coord: &LatticeCoord) -> (r: Vec<LatticeCoord>)
        requires
            children_fit(*coord),
        ensures
            r.len() == 8,
            forall|i: int| 0 <= i < 8 ==> r[i] == child_of(*coord, i),
    {
        let (x2, y2, z2) = (2 * coord.x, 2 * coord.y, 2 * coord.z);
        let mut out: Vec<LatticeCoord> = Vec::with_capacity(8);
        out.push(LatticeCoord::new_unchecked(x2, y2, z2));
        out.push(LatticeCoord::new_unchecked(x2 + 2, y2, z2));
        out.push(LatticeCoord::new_unchecked(x2, y2 + 2, z2));
        out.push(LatticeCoord::new_unchecked(x2, y2, z2 + 2));
        out.push(LatticeCoord::new_unchecked(x2 + 1, y2 + 1, z2 + 1));
        out.push(LatticeCoord::new_unchecked(x2 + 1, y2 + 1, z2 - 1));
        out.push(LatticeCoord::new_unchecked(x2 + 1, y2 - 1, z2 + 1));
        out.push(LatticeCoord::new_unchecked(x2 + 1, y2 - 1, z2 - 1));
        out
    }

    /// The parent of a coordinate at the next coarser resolution.
    pub fn get_parent(coord: &LatticeCoord) -> (r: LatticeCoord)
        requires
            coord.parity == Parity::Odd ==> coord.x != i32::MIN && coord.y != i32::MIN
                && coord.z != i32::MIN,
        ensures
            r == parent_of(*coord),
    {
        match coord.parity {
            Parity::Even => {
                let (qx, qy, qz) = (coord.x / 2, coord.y / 2, coord.z / 2);
                proof {
                    lemma_i32_even(qx);
                    lemma_i32_even(qy);
                    lemma_i32_even(qz);
                }
                let ox = qx & 1 != 0;
                let oy = qy & 1 != 0;
                let oz = qz & 1 != 0;
                let count: u8 = (if ox { 1u8 } else { 0 }) + (if oy { 1u8 } else { 0 }) + (if oz {
                    1u8
                } else {
                    0
                });
                if count == 0 || count == 3 {
                    LatticeCoord::new_unchecked(qx, qy, qz)
                } else if count == 1 {
                    let (dx, dy, dz) = (ox as i32, oy as i32, oz as i32);
                    LatticeCoord::new_unchecked(qx - dx, qy - dy, qz - dz)
                } else {
                    let (dx, dy, dz) = (!ox as i32, !oy as i32, !oz as i32);
                    LatticeCoord::new_unchecked(qx - dx, qy - dy, qz - dz)
                }
            },
            Parity::Odd => {
                let px = (coord.x - 1) / 2;
                proof { lemma_i32_even(px); }
                let target = px & 1;
                let py = pick_half_exec(coord.y, target);
                let pz = pick_half_exec(coord.z, target);
                LatticeCoord::new_unchecked(px, py, pz)
            },
        }
    }
}

fn pick_half_exec(c: i32, target: i32) -> (r: i32)
    requires
        c != i32::MIN,
        target == 0 || target == 1,
    ensures
        r == pick_half(c as int, target == 1),
{
    let lo = (c - 1) / 2;
    proof { lemma_i32_even(lo); }
    if lo & 1 == target {
        lo
    } else {
        lo + 1
    }
}

/// Every child of a lattice point has that point as its parent: the parent
/// computation is the exact inverse of the child computation.
pub proof fn lemma_parent_of_child(p: LatticeCoord, i: int)
    requires
        p.wf(),
        children_fit(p),
        0 <= i < 8,
    ensures
        parent_of(child_of(p, i)) == p,
        child_of(p, i).wf(),
{
}

#[verifier::rlimit(60)]
proof fn lemma_child_of_parent_even(c: LatticeCoord)
    requires
        c.wf(),
        is_even(c.x as int),
    ensures
        parent_of(c).wf(),
        exists|i: int| 0 <= i < 8 && child_of(parent_of(c), i) == c,
{
    let p = parent_of(c);
    let qx = trunc_half(c.x as int);
    let qy = trunc_half(c.y as int);
    let qz = trunc_half(c.z as int);
    assert(2 * qx == c.x && 2 * qy == c.y && 2 * qz == c.z);
    assert(fits_i32(qx) && fits_i32(qy) && fits_i32(qz));
    if is_even(qx) == is_even(qy) && is_even(qy) == is_even(qz) {
        assert(p == coord_unchecked(qx, qy, qz));
        assert(child_of(p, 0) == c);
    } else if !is_even(qx) && is_even(qy) && is_even(qz) {
        assert(p == coord_unchecked(qx - 1, qy, qz));
        assert(child_of(p, 1) == c);
    } else if is_even(qx) && !is_even(qy) && is_even(qz) {
        assert(p == coord_unchecked(qx, qy - 1, qz));
        assert(child_of(p, 2) == c);
    } else if is_even(qx) && is_even(qy) && !is_even(qz) {
        assert(p == coord_unchecked(qx, qy, qz - 1));
        assert(child_of(p, 3) == c);
    } else if is_even(qx) {
        assert(p == coord_unchecked(qx - 1, qy, qz));
        assert(child_of(p, 1) == c);
    } else if is_even(qy) {
        assert(p == coord_unchecked(qx, qy - 1, qz));
        assert(child_of(p, 2) == c);
    } else {
        assert(p == coord_unchecked(qx, qy, qz - 1));
        assert(child_of(p, 3) == c);
    }
}

proof fn lemma_child_of_parent_odd(c: LatticeCoord)
    requires
        c.wf(),
        !is_even(c.x as int),
    ensures
        parent_of(c).wf(),
        exists|i: int| 0 <= i < 8 && child_of(parent_of(c), i) == c,
{
    let p = parent_of(c);
    let px = trunc_half(c.x - 1);
    let t = !is_even(px);
    let py = pick_half(c.y as int, t);
    let pz = pick_half(c.z as int, t);
    assert(2 * px + 1 == c.x);
    assert(c.y == 2 * py + 1 || c.y == 2 * py - 1);
    assert(c.z == 2 * pz + 1 || c.z == 2 * pz - 1);
    assert(fits_i32(px) && fits_i32(py) && fits_i32(pz));
    assert(p == coord_unchecked(px, py, pz));
    if c.y == 2 * py + 1 && c.z == 2 * pz + 1 {
        assert(child_of(p, 4) == c);
    } else if c.y == 2 * py + 1 {
        assert(child_of(p, 5) == c);
    } else if c.z == 2 * pz + 1 {
        assert(child_of(p, 6) == c);
    } else {
        assert(child_of(p, 7) == c);
    }
}

/// Every lattice point is one of the children of its parent, so the children
/// of all parents cover the finer lattice.
pub proof fn lemma_child_of_parent(c: LatticeCoord)
    requires
        c.wf(),
    ensures
        parent_of(c).wf(),
        exists|i: int| 0 <= i < 8 && child_of(parent_of(c), i) == c,
{
    if is_even(c.x as int) {
        lemma_child_of_parent_even(c);
    } else {
        lemma_child_of_parent_odd(c);
    }
}

/// Away from the ends of the `i32` range, every lattice point has a parent
/// whose children all fit and include the point: `get_children` of
/// `get_parent` of a point lists the point.
pub proof fn lemma_parent_children_fit(c: LatticeCoord)
    requires
        c.wf(),
        i32::MIN + 4 <= c.x <= i32::MAX - 4,
        i32::MIN + 4 <= c.y <= i32::MAX - 4,
        i32::MIN + 4 <= c.z <= i32::MAX - 4,
    ensures
        children_fit(parent_of(c)),
        exists|i: int| 0 <= i < 8 && child_of(parent_of(c), i) == c,
{
    lemma_child_of_parent(c);
}

/// The eight children of a point are distinct.
pub proof fn lemma_children_distinct(p: LatticeCoord, i: int, j: int)
    requires
        children_fit(p),
        0 <= i < 8,
        0 <= j < 8,
        i != j,
    ensures
        child_of(p, i) != child_of(p, j),
{
}

/// Distinct parents never share a child.
pub proof fn lemma_children_disjoint(p: LatticeCoord, q: LatticeCoord, i: int, j: int)
    requires
        p.wf(),
        q.wf(),
        children_fit(p),
        children_fit(q),
        0 <= i < 8,
        0 <= j < 8,
        child_of(p, i) == child_of(q, j),
    ensures
        p == q,
{
    lemma_parent_of_child(p, i);
    lemma_parent_of_child(q, j);
}

} // verus!
