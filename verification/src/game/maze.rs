//! Mazes carved on the BCC lattice inside a box, by randomized Prim's algorithm.

use vstd::prelude::*;
use crate::lattice::{is_bcc, is_even, neighbor_offset, BCC_NEIGHBORS_14};
use crate::game::rng::SeededRng;
use crate::game::pathfind::{is_walk, walk_between};

verus! {

/// A lattice coordinate in a maze.
pub type Coord = (i32, i32, i32);

/// Size of a maze box along x, y and z.
pub type Extent = (u32, u32, u32);

/// Largest edge of a maze box.
pub const MAX_EDGE: u32 = 0x4000_0000;

/// A box that a maze can be carved in: every edge at least 1 and at most
/// [`MAX_EDGE`], and the cells numbered by a `u32`.
pub open spec fn extent_ok(e: Extent) -> bool {
    &&& 1 <= e.0 <= MAX_EDGE
    &&& 1 <= e.1 <= MAX_EDGE
    &&& 1 <= e.2 <= MAX_EDGE
    &&& e.0 * e.1 * e.2 < 0xFFFF_FFFF
}

/// Number of cells of the box.
pub open spec fn cell_count(e: Extent) -> int {
    e.0 * e.1 * e.2
}

/// The coordinate lies inside the box.
pub open spec fn in_extent(e: Extent, c: Coord) -> bool {
    0 <= c.0 < e.0 && 0 <= c.1 < e.1 && 0 <= c.2 < e.2
}

/// Row-major number of a cell: x slowest, z fastest.
pub open spec fn cell_index(e: Extent, c: Coord) -> int {
    c.0 * (e.1 * e.2) + c.1 * e.2 + c.2
}

/// The cell with a given number.
pub open spec fn index_coord(e: Extent, idx: int) -> Coord {
    ((idx / (e.1 * e.2)) as i32, ((idx / (e.2 as int)) % (e.1 as int)) as i32, (idx % (e.2 as int)) as i32)
}

/// The coordinate is a BCC lattice point.
pub open spec fn bcc_coord(c: Coord) -> bool {
    is_bcc(c.0 as int, c.1 as int, c.2 as int)
}

/// `c` moved by neighbour offset `k`.
pub open spec fn step(c: Coord, k: int) -> (int, int, int) {
    (c.0 + neighbor_offset(k).0, c.1 + neighbor_offset(k).1, c.2 + neighbor_offset(k).2)
}

/// `b` is one lattice step away from `a`.
pub open spec fn lattice_step(a: Coord, b: Coord) -> bool {
    exists|k: int| 0 <= k < 14 && #[trigger] step(a, k) == (b.0 as int, b.1 as int, b.2 as int)
}

/// Cell numbers are in range and tell the cells apart.
pub proof fn lemma_cell_index(e: Extent, c: Coord)
    requires
        e.0 >= 1 && e.1 >= 1 && e.2 >= 1,
        in_extent(e, c),
    ensures
        0 <= cell_index(e, c) < cell_count(e),
        index_coord(e, cell_index(e, c)) == c,
{
    let (x, y, z) = (c.0 as int, c.1 as int, c.2 as int);
    let (a, b, d) = (e.0 as int, e.1 as int, e.2 as int);
    let i = cell_index(e, c);
    assert(0 <= y * d + z < b * d) by (nonlinear_arith)
        requires 0 <= y < b, 0 <= z < d;
    assert(0 <= x * (b * d) && x * (b * d) + b * d <= a * (b * d)) by (nonlinear_arith)
        requires 0 <= x < a, b >= 1, d >= 1;
    assert(a * (b * d) == a * b * d) by (nonlinear_arith);
    assert(i / (b * d) == x && i % (b * d) == y * d + z) by {
        vstd::arithmetic::div_mod::lemma_fundamental_div_mod_converse(i, b * d, x, y * d + z);
    }
    assert((y * d + z) / d == y && (y * d + z) % d == z) by {
        vstd::arithmetic::div_mod::lemma_fundamental_div_mod_converse(y * d + z, d, y, z);
    }
    assert(i / d == x * b + y && i % d == z) by {
        assert(i == (x * b + y) * d + z) by (nonlinear_arith)
            requires i == x * (b * d) + y * d + z;
        vstd::arithmetic::div_mod::lemma_fundamental_div_mod_converse(i, d, x * b + y, z);
    }
    assert((x * b + y) % b == y) by {
        vstd::arithmetic::div_mod::lemma_fundamental_div_mod_converse(x * b + y, b, x, y);
    }
}

/// Numbering a numbered cell's coordinate gives the number back.
pub proof fn lemma_index_coord(e: Extent, idx: int)
    requires
        extent_ok(e),
        0 <= idx < cell_count(e),
    ensures
        in_extent(e, index_coord(e, idx)),
        cell_index(e, index_coord(e, idx)) == idx,
{
    let (a, b, d) = (e.0 as int, e.1 as int, e.2 as int);
    let x = idx / (b * d);
    let r = idx % (b * d);
    assert(b * d >= 1) by (nonlinear_arith)
        requires b >= 1, d >= 1;
    vstd::arithmetic::div_mod::lemma_fundamental_div_mod(idx, b * d);
    assert(0 <= x < a) by {
        vstd::arithmetic::div_mod::lemma_div_pos_is_pos(idx, b * d);
        assert(a * b * d == a * (b * d)) by (nonlinear_arith);
        if x >= a {
            assert(false) by (nonlinear_arith)
                requires x >= a, b * d >= 1, idx == (b * d) * x + r, r >= 0, idx < a * (b * d);
        }
    }
    let q = idx / d;
    vstd::arithmetic::div_mod::lemma_fundamental_div_mod(idx, d);
    vstd::arithmetic::div_mod::lemma_fundamental_div_mod(q, b);
    assert(q / b == x) by {
        vstd::arithmetic::div_mod::lemma_div_denominator(idx, d, b);
        assert(d * b == b * d) by (nonlinear_arith);
    }
    assert(idx == x * (b * d) + (q % b) * d + idx % d) by (nonlinear_arith)
        requires idx == d * q + idx % d, q == b * x + q % b;
    vstd::arithmetic::div_mod::lemma_mod_bound(q, b);
    vstd::arithmetic::div_mod::lemma_mod_bound(idx, d);
}

/// Row-major number of a cell, or `None` outside the box.
pub fn coord_to_index(extent: Extent, c: Coord) -> (r: Option<u32>)
    requires
        extent_ok(extent),
    ensures
        in_extent(extent, c) ==> r == Some(cell_index(extent, c) as u32),
        !in_extent(extent, c) ==> r is None,
{
    if c.0 < 0 || c.1 < 0 || c.2 < 0 {
        return None;
    }
    if c.0 >= extent.0 as i32 || c.1 >= extent.1 as i32 || c.2 >= extent.2 as i32 {
        return None;
    }
    proof {
        lemma_cell_index(extent, c);
        let (x, y, b, d) = (c.0 as int, c.1 as int, extent.1 as int, extent.2 as int);
        assert(x * b * d == x * (b * d) && x * b <= 0xFFFF_FFFF && x * b * d <= 0xFFFF_FFFF && y * d
            <= 0xFFFF_FFFF) by (nonlinear_arith)
            requires
                0 <= x < extent.0, 0 <= y < b, b >= 1, d >= 1,
                (extent.0 as int) * b * d < 0xFFFF_FFFF;
    }
    Some(c.0 as u32 * extent.1 * extent.2 + c.1 as u32 * extent.2 + c.2 as u32)
}

/// The cell with a given row-major number.
pub fn index_to_coord(extent: Extent, idx: u32) -> (r: Coord)
    requires
        extent.1 >= 1 && extent.2 >= 1,
        extent.1 * extent.2 <= u32::MAX,
    ensures
        r == index_coord(extent, idx as int),
{
    assert(extent.1 * extent.2 >= 1) by (nonlinear_arith)
        requires extent.1 >= 1, extent.2 >= 1;
    let z = idx % extent.2;
    let y = (idx / extent.2) % extent.1;
    let x = idx / (extent.1 * extent.2);
    (x as i32, y as i32, z as i32)
}

/// The in-box cells among the 14 lattice neighbours of `c`, in offset order,
/// looking at the first `n` offsets.
pub open spec fn box_neighbors_upto(e: Extent, c: Coord, n: int) -> Seq<Coord>
    decreases n,
{
    if n <= 0 {
        Seq::empty()
    } else {
        let s = step(c, n - 1);
        let rest = box_neighbors_upto(e, c, n - 1);
        if 0 <= s.0 < e.0 && 0 <= s.1 < e.1 && 0 <= s.2 < e.2 {
            rest.push((s.0 as i32, s.1 as i32, s.2 as i32))
        } else {
            rest
        }
    }
}

/// The in-box lattice neighbours of `c`, in offset order.
pub open spec fn box_neighbors(e: Extent, c: Coord) -> Seq<Coord> {
    box_neighbors_upto(e, c, 14)
}

/// Every cell listed by [`box_neighbors_upto`] is in the box, one step from `c`.
pub proof fn lemma_box_neighbors(e: Extent, c: Coord, n: int)
    requires
        extent_ok(e),
        0 <= n <= 14,
    ensures
        box_neighbors_upto(e, c, n).len() <= n,
        forall|k: int|
            0 <= k < box_neighbors_upto(e, c, n).len() ==> in_extent(e, #[trigger] box_neighbors_upto(e, c, n)[k])
                && lattice_step(c, box_neighbors_upto(e, c, n)[k]),
    decreases n,
{
    if n > 0 {
        lemma_box_neighbors(e, c, n - 1);
        let s = step(c, n - 1);
        if 0 <= s.0 < e.0 && 0 <= s.1 < e.1 && 0 <= s.2 < e.2 {
            let b = (s.0 as i32, s.1 as i32, s.2 as i32);
            assert(step(c, n - 1) == (b.0 as int, b.1 as int, b.2 as int));
            assert(lattice_step(c, b));
        }
    }
}

/// The in-box lattice neighbours of a coordinate, in the order of the 14 offsets.
pub fn get_neighbors(extent: Extent, coord: Coord) -> (r: Vec<Coord>)
    requires
        extent_ok(extent),
        i32::MIN + 2 <= coord.0 <= i32::MAX - 2,
        i32::MIN + 2 <= coord.1 <= i32::MAX - 2,
        i32::MIN + 2 <= coord.2 <= i32::MAX - 2,
    ensures
        r@ == box_neighbors(extent, coord),
{
    let mut neighbors: Vec<Coord> = Vec::with_capacity(14);
    let mut i: usize = 0;
    while i < 14
        invariant
            i <= 14,
            extent_ok(extent),
            i32::MIN + 2 <= coord.0 <= i32::MAX - 2,
            i32::MIN + 2 <= coord.1 <= i32::MAX - 2,
            i32::MIN + 2 <= coord.2 <= i32::MAX - 2,
            neighbors@ == box_neighbors_upto(extent, coord, i as int),
        decreases 14 - i,
    {
        let (dx, dy, dz) = BCC_NEIGHBORS_14[i];
        assert(dx == neighbor_offset(i as int).0 && dy == neighbor_offset(i as int).1
            && dz == neighbor_offset(i as int).2);
        let nx = coord.0 + dx;
        let ny = coord.1 + dy;
        let nz = coord.2 + dz;
        if nx >= 0 && ny >= 0 && nz >= 0 && nx < extent.0 as i32 && ny < extent.1 as i32 && nz
            < extent.2 as i32 {
            neighbors.push((nx, ny, nz));
        }
        i = i + 1;
    }
    neighbors
}

/// Whether two coordinates are the same cell.
pub fn same_coord(a: Coord, b: Coord) -> (r: bool)
    ensures
        r == (a == b),
{
    a.0 == b.0 && a.1 == b.1 && a.2 == b.2
}

/// Whether a coordinate is a BCC lattice point (all even or all odd).
pub fn is_valid_bcc(c: Coord) -> (r: bool)
    ensures
        r == bcc_coord(c),
{
    crate::layers::bcc_utils::is_valid_bcc(c.0, c.1, c.2)
}

/// Index of the offset opposite to offset `k`.
pub open spec fn opposite(k: int) -> int {
    if k < 8 { 7 - k } else if k % 2 == 0 { k + 1 } else { k - 1 }
}

/// Stepping by an offset and then by its opposite comes back.
pub proof fn lemma_opposite(k: int)
    requires
        0 <= k < 14,
    ensures
        0 <= opposite(k) < 14,
        neighbor_offset(opposite(k)).0 == -neighbor_offset(k).0,
        neighbor_offset(opposite(k)).1 == -neighbor_offset(k).1,
        neighbor_offset(opposite(k)).2 == -neighbor_offset(k).2,
{
}

/// A step from a lattice point lands on a lattice point.
pub proof fn lemma_step_parity(c: Coord, k: int)
    requires
        0 <= k < 14,
        bcc_coord(c),
    ensures
        is_bcc(step(c, k).0, step(c, k).1, step(c, k).2),
{
    let (x, y, z) = (c.0 as int, c.1 as int, c.2 as int);
    if k < 8 {
        assert(is_even(x + neighbor_offset(k).0) == !is_even(x));
        assert(is_even(y + neighbor_offset(k).1) == !is_even(y));
        assert(is_even(z + neighbor_offset(k).2) == !is_even(z));
    }
}

/// Every in-box step of `c` among the first `n` offsets is listed.
pub proof fn lemma_box_neighbors_has(e: Extent, c: Coord, n: int, k: int)
    requires
        0 <= k < n <= 14,
        0 <= step(c, k).0 < e.0,
        0 <= step(c, k).1 < e.1,
        0 <= step(c, k).2 < e.2,
    ensures
        box_neighbors_upto(e, c, n).contains((step(c, k).0 as i32, step(c, k).1 as i32, step(c, k).2 as i32)),
    decreases n,
{
    let b = (step(c, k).0 as i32, step(c, k).1 as i32, step(c, k).2 as i32);
    if k < n - 1 {
        lemma_box_neighbors_has(e, c, n - 1, k);
        let rest = box_neighbors_upto(e, c, n - 1);
        let j = choose|j: int| 0 <= j < rest.len() && rest[j] == b;
        assert(box_neighbors_upto(e, c, n)[j] == b);
    } else {
        let rest = box_neighbors_upto(e, c, n - 1);
        assert(box_neighbors_upto(e, c, n)[rest.len() as int] == b);
    }
}

/// Number of `false` entries.
pub open spec fn count_false(s: Seq<bool>) -> nat
    decreases s.len(),
{
    if s.len() == 0 {
        0
    } else {
        count_false(s.drop_last()) + if s.last() { 0nat } else { 1nat }
    }
}

proof fn lemma_count_false_set(s: Seq<bool>, i: int)
    requires
        0 <= i < s.len(),
        !s[i],
    ensures
        count_false(s.update(i, true)) + 1 == count_false(s),
    decreases s.len(),
{
    if i < s.len() - 1 {
        assert(s.update(i, true).drop_last() =~= s.drop_last().update(i, true));
        lemma_count_false_set(s.drop_last(), i);
    } else {
        assert(s.update(i, true).drop_last() =~= s.drop_last());
    }
}

/// The goal of a maze in a box: the far corner, or the cell one step
/// diagonally in from it when the corner is off the lattice.
pub open spec fn goal_for(e: Extent) -> Coord {
    let g = ((e.0 - 1) as i32, (e.1 - 1) as i32, (e.2 - 1) as i32);
    if bcc_coord(g) { g } else { ((g.0 - 1) as i32, (g.1 - 1) as i32, (g.2 - 1) as i32) }
}

/// Some in-box step of `c` is a carved cell.
pub open spec fn has_carved_neighbor(e: Extent, carved: Seq<bool>, c: Coord) -> bool {
    exists|k: int|
        0 <= k < 14 && 0 <= #[trigger] step(c, k).0 < e.0 && 0 <= step(c, k).1 < e.1 && 0 <= step(c, k).2 < e.2
            && carved[cell_index(e, (step(c, k).0 as i32, step(c, k).1 as i32, step(c, k).2 as i32))]
}

/// The passages of a maze, by cell number: each leads to a carved lattice
/// neighbour inside the box, from a carved cell, and the neighbour has the
/// passage back.
pub open spec fn passages_ok(e: Extent, carved: Seq<bool>, links: Seq<Vec<Coord>>) -> bool {
    forall|i: int, k: int|
        #![trigger links[i]@[k]]
        0 <= i < links.len() && 0 <= k < links[i]@.len() ==> {
            let n = links[i]@[k];
            &&& in_extent(e, n)
            &&& carved[i]
            &&& carved[cell_index(e, n)]
            &&& lattice_step(index_coord(e, i), n)
            &&& links[cell_index(e, n)]@.contains(index_coord(e, i))
        }
}

/// The passages from `c`, read from the passage lists by cell number.
pub open spec fn raw_links(e: Extent, conns: Seq<Vec<Coord>>, c: Coord) -> Seq<Coord> {
    if in_extent(e, c) {
        conns[cell_index(e, c)]@
    } else {
        Seq::empty()
    }
}

/// Consecutive cells of `p` are joined by passages of the lists.
pub open spec fn raw_walk(e: Extent, conns: Seq<Vec<Coord>>, p: Seq<Coord>) -> bool {
    forall|i: int| #![trigger p[i]] 0 <= i < p.len() - 1 ==> raw_links(e, conns, p[i]).contains(p[i + 1])
}

/// Every carved cell is the end of a walk from the origin.
pub open spec fn raw_reached(e: Extent, conns: Seq<Vec<Coord>>, carved: Seq<bool>) -> bool {
    forall|i: int|
        0 <= i < carved.len() && #[trigger] carved[i] ==> exists|p: Seq<Coord>|
            #[trigger] raw_walk(e, conns, p) && p.len() >= 1 && p[0] == (0i32, 0i32, 0i32) && p.last()
                == index_coord(e, i)
}

/// The lists only grew: every passage of `old` is still at its place in `new`.
pub open spec fn links_grew(old: Seq<Vec<Coord>>, new: Seq<Vec<Coord>>) -> bool {
    &&& old.len() == new.len()
    &&& forall|i: int, k: int|
        0 <= i < old.len() && 0 <= k < old[i]@.len() ==> k < new[i]@.len() && #[trigger] new[i]@[k] == old[i]@[k]
}

proof fn lemma_walk_grows(e: Extent, old: Seq<Vec<Coord>>, new: Seq<Vec<Coord>>, p: Seq<Coord>)
    requires
        extent_ok(e),
        old.len() == cell_count(e),
        links_grew(old, new),
        raw_walk(e, old, p),
    ensures
        raw_walk(e, new, p),
{
    assert forall|i: int| #![trigger p[i]] 0 <= i < p.len() - 1 implies raw_links(e, new, p[i]).contains(p[i + 1]) by {
        assert(raw_links(e, old, p[i]).contains(p[i + 1]));
        if in_extent(e, p[i]) {
            lemma_cell_index(e, p[i]);
            let ci = cell_index(e, p[i]);
            let j = choose|j: int| 0 <= j < old[ci]@.len() && old[ci]@[j] == p[i + 1];
            assert(new[ci]@[j] == p[i + 1]);
        }
    }
}

/// A maze: the carved cells of a box and the passages between them.
pub struct Maze {
    extent: Extent,
    carved: Vec<bool>,
    connections: Vec<Vec<Coord>>,
    start: Coord,
    goal: Coord,
    seed: Ghost<u64>,
}

impl Maze {
    /// The seed of the generator whose draws chose the frontier cells and the
    /// passages of the maze.
    pub closed spec fn spec_seed(&self) -> u64 {
        self.seed@
    }

    /// The box.
    pub closed spec fn spec_extent(&self) -> Extent {
        self.extent
    }

    /// Where a player starts.
    pub closed spec fn spec_start(&self) -> Coord {
        self.start
    }

    /// Where a player wants to go.
    pub closed spec fn spec_goal(&self) -> Coord {
        self.goal
    }

    /// The cell is carved (passable).
    pub closed spec fn carved_at(&self, c: Coord) -> bool {
        in_extent(self.extent, c) && self.carved@[cell_index(self.extent, c)]
    }

    /// The cells reached by a passage from `c`, in the order the passages were made.
    pub closed spec fn links(&self, c: Coord) -> Seq<Coord> {
        if in_extent(self.extent, c) {
            self.connections@[cell_index(self.extent, c)]@
        } else {
            Seq::empty()
        }
    }

    /// The carved flags, by cell number.
    pub closed spec fn carved_flags(&self) -> Seq<bool> {
        self.carved@
    }

    /// The carved flags cover the box and hold, at a cell's number, whether
    /// the cell is carved.
    pub proof fn lemma_carved_flags(&self, c: Coord)
        requires
            self.wf(),
        ensures
            self.carved_flags().len() == cell_count(self.spec_extent()),
            in_extent(self.spec_extent(), c) ==> self.carved_flags()[cell_index(self.spec_extent(), c)]
                == self.carved_at(c),
    {
    }

    /// The maze is well formed.
    pub closed spec fn wf(&self) -> bool {
        &&& extent_ok(self.extent)
        &&& self.carved@.len() == cell_count(self.extent)
        &&& self.connections@.len() == cell_count(self.extent)
        &&& self.start == (0i32, 0i32, 0i32)
        &&& self.goal == goal_for(self.extent)
        &&& self.carved@[0]
        &&& passages_ok(self.extent, self.carved@, self.connections@)
        &&& forall|i: int| 0 <= i < self.carved@.len() && #[trigger] self.carved@[i] ==> bcc_coord(index_coord(self.extent, i))
    }

    /// A cell outside the box has no passages.
    pub proof fn lemma_links_outside(&self, c: Coord)
        requires
            !in_extent(self.spec_extent(), c),
        ensures
            self.links(c) == Seq::<Coord>::empty(),
    {
    }

    /// Number of passages; each is listed at both of its ends.
    pub closed spec fn passage_count(&self) -> nat {
        link_total(self.connections@) / 2
    }

    /// Every carved cell can be reached from the start along passages.
    pub open spec fn connected(&self) -> bool {
        forall|c: Coord| #[trigger] self.carved_at(c) ==> exists|p: Seq<Coord>|
            #[trigger] walk_between(*self, self.spec_start(), c, p)
    }

    /// In a well-formed maze every passage joins two carved lattice points one
    /// step apart inside the box, and the passage back exists too.
    pub proof fn lemma_passages(&self, c: Coord, n: Coord)
        requires
            self.wf(),
            self.links(c).contains(n),
        ensures
            in_extent(self.spec_extent(), c),
            in_extent(self.spec_extent(), n),
            self.carved_at(c),
            self.carved_at(n),
            bcc_coord(c),
            bcc_coord(n),
            lattice_step(c, n),
            self.links(n).contains(c),
    {
        let e = self.extent;
        assert(in_extent(e, c));
        lemma_cell_index(e, c);
        let i = cell_index(e, c);
        let k = choose|k: int| 0 <= k < self.links(c).len() && self.links(c)[k] == n;
        assert(self.connections@[i]@[k] == n);
        lemma_cell_index(e, n);
        assert(bcc_coord(index_coord(e, i)));
        assert(bcc_coord(index_coord(e, cell_index(e, n))));
    }

    /// Randomized Prim's algorithm from the origin: a frontier cell is picked
    /// at random and joined to a random carved neighbour, until no frontier
    /// is left. The goal is the far corner, or the cell diagonally in from it
    /// when the corner is off the lattice.
    pub fn generate(extent: Extent, seed: u64) -> (r: Self)
        requires
            extent_ok(extent),
        ensures
            r.wf(),
            r.spec_extent() == extent,
            r.spec_start() == (0i32, 0i32, 0i32),
            r.spec_goal() == goal_for(extent),
            r.connected(),
            forall|c: Coord| #[trigger] r.carved_at(c) <==> in_extent(extent, c) && bcc_coord(c),
            r.passage_count() + 1 == count_true(r.carved_flags()),
            r.spec_seed() == seed,
    {
        let mut rng = SeededRng::new(seed);
        proof {
            assert(extent.0 * extent.1 * extent.2 >= 1) by (nonlinear_arith)
                requires extent.0 >= 1, extent.1 >= 1, extent.2 >= 1;
            assert(extent.0 * extent.1 <= extent.0 * extent.1 * extent.2) by (nonlinear_arith)
                requires extent.2 >= 1;
        }
        let total = (extent.0 * extent.1 * extent.2) as usize;
        let mut carved: Vec<bool> = Vec::new();
        let mut in_frontier: Vec<bool> = Vec::new();
        let mut connections: Vec<Vec<Coord>> = Vec::new();
        let mut t: usize = 0;
        while t < total
            invariant
                rng.spec_seed() == seed,
                t <= total,
                carved@ == Seq::new(t as nat, |i: int| false),
                in_frontier@ == Seq::new(t as nat, |i: int| false),
                connections@.len() == t,
                forall|i: int| 0 <= i < t ==> (#[trigger] connections@[i])@.len() == 0,
            decreases total - t,
        {
            carved.push(false);
            in_frontier.push(false);
            connections.push(Vec::new());
            assert(carved@ =~= Seq::new((t + 1) as nat, |i: int| false));
            assert(in_frontier@ =~= Seq::new((t + 1) as nat, |i: int| false));
            t = t + 1;
        }
        let start: Coord = (0, 0, 0);
        proof {
            lemma_cell_index(extent, start);
            assert(cell_index(extent, start) == 0);
            assert(bcc_coord(start));
        }
        carved.set(0, true);
        let mut frontier: Vec<Coord> = Vec::new();
        proof {
            assert forall|i: int| 0 <= i < carved@.len() && #[trigger] carved@[i] implies bcc_coord(
                index_coord(extent, i),
            ) by {
                assert(i == 0);
            }
            assert forall|i: int, k: int|
                #![trigger connections@[i]@[k]]
                0 <= i < connections@.len() && 0 <= k < connections@[i]@.len() implies false by {}
            assert(frontier_ok(extent, carved@, in_frontier@, frontier@));
            assert forall|i: int|
                0 <= i < carved@.len() && #[trigger] carved@[i] implies exists|p: Seq<Coord>|
                    #[trigger] raw_walk(extent, connections@, p) && p.len() >= 1 && p[0] == (0i32, 0i32, 0i32)
                        && p.last() == index_coord(extent, i) by {
                assert(i == 0);
                lemma_cell_index(extent, start);
                let p = seq![start];
                assert(raw_walk(extent, connections@, p));
            }
        }
        proof {
            assert(flags_listed(extent, in_frontier@, frontier@));
            lemma_link_total_empty(connections@);
            lemma_count_true_zero(Seq::new(total as nat, |i: int| false));
            lemma_count_true_set(Seq::new(total as nat, |i: int| false), 0);
            assert(carved@ =~= Seq::new(total as nat, |i: int| false).update(0, true));
        }
        extend_frontier(extent, &carved, &mut frontier, &mut in_frontier, start);
        proof {
            assert forall|c: Coord, k: int|
                in_extent(extent, c) && carved@[cell_index(extent, c)] && 0 <= k < 14 && step_in_box(extent, c, k)
                    implies carved@[cell_index(extent, #[trigger] step_coord(c, k))] || in_frontier@[cell_index(
                    extent,
                    step_coord(c, k),
                )] by {
                lemma_cell_index(extent, c);
                assert(cell_index(extent, c) == 0);
                assert(c == start);
            }
        }
        while frontier.len() > 0
            invariant
                rng.spec_seed() == seed,
                extent_ok(extent),
                total as int == cell_count(extent),
                carved@.len() == total,
                in_frontier@.len() == total,
                connections@.len() == total,
                carved@[0],
                forall|i: int| 0 <= i < carved@.len() && #[trigger] carved@[i] ==> bcc_coord(index_coord(extent, i)),
                passages_ok(extent, carved@, connections@),
                frontier_ok(extent, carved@, in_frontier@, frontier@),
                flags_listed(extent, in_frontier@, frontier@),
                frontier_closed(extent, carved@, in_frontier@),
                raw_reached(extent, connections@, carved@),
                link_total(connections@) + 2 == 2 * count_true(carved@),
            decreases count_false(carved@),
        {
            let ghost flags_before = in_frontier@;
            let pick = rng.index_below(frontier.len());
            let current = take_from_frontier(extent, &carved, &mut frontier, &mut in_frontier, pick);
            let neighbors = carved_neighbors_of(extent, &carved, current);
            let pick2 = rng.index_below(neighbors.len());
            let parent = neighbors[pick2];
            let ghost c_before = carved@;
            let ghost l_before = connections@;
            proof { lemma_cell_index(extent, current); }
            join(extent, &mut carved, &mut connections, current, parent);
            proof {
                lemma_cell_index(extent, parent);
                let ghost pi = cell_index(extent, parent);
                assert(c_before[pi]);
                assert forall|i: int|
                    0 <= i < carved@.len() && #[trigger] carved@[i] implies exists|p: Seq<Coord>|
                        #[trigger] raw_walk(extent, connections@, p) && p.len() >= 1 && p[0] == (0i32, 0i32, 0i32)
                            && p.last() == index_coord(extent, i) by {
                    if i == cell_index(extent, current) {
                        let p = choose|p: Seq<Coord>|
                            #[trigger] raw_walk(extent, l_before, p) && p.len() >= 1 && p[0] == (0i32, 0i32, 0i32)
                                && p.last() == index_coord(extent, pi);
                        lemma_walk_grows(extent, l_before, connections@, p);
                        let q = p.push(current);
                        assert forall|j: int| #![trigger q[j]] 0 <= j < q.len() - 1 implies raw_links(
                            extent,
                            connections@,
                            q[j],
                        ).contains(q[j + 1]) by {
                            if j < p.len() - 1 {
                                assert(q[j] == p[j] && q[j + 1] == p[j + 1]);
                            } else {
                                assert(q[j] == parent);
                            }
                        }
                        assert(raw_walk(extent, connections@, q));
                    } else {
                        assert(c_before[i]);
                        let p = choose|p: Seq<Coord>|
                            #[trigger] raw_walk(extent, l_before, p) && p.len() >= 1 && p[0] == (0i32, 0i32, 0i32)
                                && p.last() == index_coord(extent, i);
                        lemma_walk_grows(extent, l_before, connections@, p);
                    }
                }
                lemma_cell_index(extent, current);
                assert(carved@.len() == total);
                assert(carved@[0]);
                lemma_count_false_set(c_before, cell_index(extent, current));
                assert forall|a: int| 0 <= a < frontier@.len() implies !carved@[cell_index(extent, #[trigger] frontier@[a])] by {
                    lemma_cell_index(extent, frontier@[a]);
                }
                lemma_frontier_grows(extent, c_before, carved@, in_frontier@, frontier@);
                assert forall|i: int| 0 <= i < carved@.len() && #[trigger] carved@[i] implies bcc_coord(
                    index_coord(extent, i),
                ) by {
                    if i == cell_index(extent, current) {
                        lemma_cell_index(extent, current);
                    } else {
                        assert(c_before[i]);
                    }
                }
            }
            extend_frontier(extent, &carved, &mut frontier, &mut in_frontier, current);
            proof {
                lemma_closed_after_carving(extent, c_before, flags_before, in_frontier@, current);
                lemma_count_true_set(c_before, cell_index(extent, current));
            }
        }
        proof {
            assert forall|d: Coord, k: int|
                in_extent(extent, d) && carved@[cell_index(extent, d)] && 0 <= k < 14 && step_in_box(extent, d, k)
                    implies carved@[cell_index(extent, #[trigger] step_coord(d, k))] by {
                let n = step_coord(d, k);
                lemma_cell_index(extent, n);
                if in_frontier@[cell_index(extent, n)] {
                    let a = choose|a: int| 0 <= a < frontier@.len() && cell_index(extent, #[trigger] frontier@[a])
                        == cell_index(extent, n);
                }
            }
        }
        let mut goal: Coord = ((extent.0 - 1) as i32, (extent.1 - 1) as i32, (extent.2 - 1) as i32);
        if !is_valid_bcc(goal) {
            goal = (goal.0 - 1, goal.1 - 1, goal.2 - 1);
        }
        let r = Maze { extent, carved, connections, start, goal, seed: Ghost(rng.spec_seed()) };
        proof {
            assert forall|c: Coord| #[trigger] r.carved_at(c) implies exists|p: Seq<Coord>|
                #[trigger] walk_between(r, r.spec_start(), c, p) by {
                lemma_cell_index(extent, c);
                let i = cell_index(extent, c);
                let p = choose|p: Seq<Coord>|
                    #[trigger] raw_walk(extent, r.connections@, p) && p.len() >= 1 && p[0] == (0i32, 0i32, 0i32)
                        && p.last() == index_coord(extent, i);
                assert forall|j: int| #![trigger p[j]] 0 <= j < p.len() - 1 implies r.links(p[j]).contains(p[j + 1]) by {
                    assert(raw_links(extent, r.connections@, p[j]).contains(p[j + 1]));
                }
                assert(walk_between(r, r.spec_start(), c, p));
            }
            assert forall|c: Coord| #[trigger] r.carved_at(c) <==> in_extent(extent, c) && bcc_coord(c) by {
                if in_extent(extent, c) {
                    lemma_cell_index(extent, c);
                    if bcc_coord(c) {
                        lemma_all_carved(extent, r.carved@, c);
                    }
                }
            }
        }
        r
    }
}

/// Number of `true` entries.
pub open spec fn count_true(s: Seq<bool>) -> nat
    decreases s.len(),
{
    if s.len() == 0 {
        0
    } else {
        count_true(s.drop_last()) + if s.last() { 1nat } else { 0nat }
    }
}

pub proof fn lemma_count_true_set(s: Seq<bool>, i: int)
    requires
        0 <= i < s.len(),
        !s[i],
    ensures
        count_true(s.update(i, true)) == count_true(s) + 1,
        count_true(s) < s.len(),
    decreases s.len(),
{
    lemma_count_true_le(s.drop_last());
    if i < s.len() - 1 {
        assert(s.update(i, true).drop_last() =~= s.drop_last().update(i, true));
        lemma_count_true_set(s.drop_last(), i);
    } else {
        assert(s.update(i, true).drop_last() =~= s.drop_last());
    }
}

/// Fewer flags set, pointwise, means no more flags counted.
pub proof fn lemma_count_true_mono(a: Seq<bool>, b: Seq<bool>)
    requires
        a.len() == b.len(),
        forall|i: int| 0 <= i < a.len() && #[trigger] a[i] ==> b[i],
    ensures
        count_true(a) <= count_true(b),
    decreases a.len(),
{
    if a.len() > 0 {
        lemma_count_true_mono(a.drop_last(), b.drop_last());
    }
}

pub proof fn lemma_count_true_le(s: Seq<bool>)
    ensures
        count_true(s) <= s.len(),
    decreases s.len(),
{
    if s.len() > 0 {
        lemma_count_true_le(s.drop_last());
    }
}

pub proof fn lemma_count_true_zero(s: Seq<bool>)
    requires
        forall|i: int| 0 <= i < s.len() ==> !s[i],
    ensures
        count_true(s) == 0,
    decreases s.len(),
{
    if s.len() > 0 {
        lemma_count_true_zero(s.drop_last());
    }
}

/// The carved cells among the first `n` cell numbers, in number order.
pub open spec fn carved_upto(e: Extent, carved: Seq<bool>, n: int) -> Seq<Coord>
    decreases n,
{
    if n <= 0 {
        Seq::empty()
    } else if carved[n - 1] {
        carved_upto(e, carved, n - 1).push(index_coord(e, n - 1))
    } else {
        carved_upto(e, carved, n - 1)
    }
}

impl Maze {
    /// The carved cells, in cell-number order.
    pub closed spec fn carved_list(&self) -> Seq<Coord> {
        carved_upto(self.extent, self.carved@, self.carved@.len() as int)
    }

    /// Every listed carved cell is a carved lattice point of the box.
    pub proof fn lemma_carved_list(&self)
        requires
            self.wf(),
        ensures
            forall|k: int| 0 <= k < self.carved_list().len() ==> self.carved_at(#[trigger] self.carved_list()[k])
                && bcc_coord(self.carved_list()[k]),
    {
        assert forall|k: int| 0 <= k < self.carved_list().len() implies self.carved_at(#[trigger] self.carved_list()[k])
            && bcc_coord(self.carved_list()[k]) by {
            lemma_carved_upto(self.extent, self.carved@, self.carved@.len() as int, k);
            let i = choose|i: int| #![trigger index_coord(self.extent, i)] 0 <= i < self.carved@.len() && self.carved@[i]
                && self.carved_list()[k] == index_coord(self.extent, i);
            lemma_index_coord(self.extent, i);
        }
    }

    /// The start of a well-formed maze is a carved lattice point of its box.
    pub proof fn lemma_start_carved(&self)
        requires
            self.wf(),
        ensures
            self.spec_start() == (0i32, 0i32, 0i32),
            in_extent(self.spec_extent(), self.spec_start()),
            self.carved_at(self.spec_start()),
            bcc_coord(self.spec_start()),
    {
        let o: Coord = (0, 0, 0);
        lemma_cell_index(self.extent, o);
        let (b, d) = (self.extent.1 as int, self.extent.2 as int);
        assert(0 * (b * d) + 0 * d + 0 == 0) by (nonlinear_arith);
        assert(cell_index(self.extent, o) == 0);
    }

    /// A well-formed maze lies in a valid box.
    pub proof fn lemma_wf_extent(&self)
        requires
            self.wf(),
        ensures
            extent_ok(self.spec_extent()),
            self.spec_goal() == goal_for(self.spec_extent()),
    {
    }

    /// Number of cells of the box.
    pub fn cell_total(&self) -> (r: usize)
        requires
            self.wf(),
        ensures
            r == cell_count(self.spec_extent()),
    {
        self.carved.len()
    }

    /// A carved cell lies inside the box.
    pub proof fn lemma_carved_in_extent(&self, c: Coord)
        requires
            self.carved_at(c),
        ensures
            in_extent(self.spec_extent(), c),
    {
    }

    /// The start is the first listed carved cell.
    pub proof fn lemma_start_in_list(&self)
        requires
            self.wf(),
        ensures
            self.carved_list().len() > 0,
            self.carved_list()[0] == self.spec_start(),
    {
        self.lemma_start_carved();
        let (a0, b0, d0) = (self.extent.0 as int, self.extent.1 as int, self.extent.2 as int);
        assert(a0 * b0 * d0 >= 1) by (nonlinear_arith)
            requires a0 >= 1, b0 >= 1, d0 >= 1;
        lemma_carved_upto_first(self.extent, self.carved@, self.carved@.len() as int);
        let o: Coord = (0, 0, 0);
        lemma_cell_index(self.extent, o);
        let (b, d) = (self.extent.1 as int, self.extent.2 as int);
        assert(0 * (b * d) + 0 * d + 0 == 0) by (nonlinear_arith);
        assert(index_coord(self.extent, 0) == o);
    }

    /// The carved cells are listed once each.
    pub proof fn lemma_carved_list_distinct(&self)
        requires
            self.wf(),
        ensures
            self.carved_list().no_duplicates(),
    {
        lemma_carved_upto_distinct(self.extent, self.carved@, self.carved@.len() as int);
    }

    /// The box.
    pub fn extent(&self) -> (r: Extent)
        ensures
            r == self.spec_extent(),
    {
        self.extent
    }

    /// Where a player starts.
    pub fn start(&self) -> (r: Coord)
        ensures
            r == self.spec_start(),
    {
        self.start
    }

    /// Where a player wants to go.
    pub fn goal(&self) -> (r: Coord)
        ensures
            r == self.spec_goal(),
    {
        self.goal
    }

    /// Whether a coordinate is carved (passable).
    pub fn is_carved(&self, coord: Coord) -> (r: bool)
        requires
            self.wf(),
        ensures
            r == self.carved_at(coord),
    {
        match coord_to_index(self.extent, coord) {
            Some(i) => {
                proof { lemma_cell_index(self.extent, coord); }
                self.carved[i as usize]
            },
            None => false,
        }
    }

    /// The cells reached by a passage from `coord`, in the order the passages were made.
    pub fn get_connected_neighbors(&self, coord: Coord) -> (r: Vec<Coord>)
        requires
            self.wf(),
        ensures
            r@ == self.links(coord),
    {
        match coord_to_index(self.extent, coord) {
            Some(i) => {
                proof { lemma_cell_index(self.extent, coord); }
                let src = &self.connections[i as usize];
                let mut out: Vec<Coord> = Vec::new();
                let mut k: usize = 0;
                while k < src.len()
                    invariant
                        k <= src@.len(),
                        out@ == src@.subrange(0, k as int),
                    decreases src@.len() - k,
                {
                    out.push(src[k]);
                    assert(out@ =~= src@.subrange(0, k + 1));
                    k = k + 1;
                }
                assert(src@.subrange(0, src@.len() as int) =~= src@);
                out
            },
            None => Vec::new(),
        }
    }

    /// Whether a passage leads from `from` to `to`.
    pub fn are_connected(&self, from: Coord, to: Coord) -> (r: bool)
        requires
            self.wf(),
        ensures
            r == self.links(from).contains(to),
    {
        match coord_to_index(self.extent, from) {
            Some(i) => {
                proof { lemma_cell_index(self.extent, from); }
                let src = &self.connections[i as usize];
                let mut k: usize = 0;
                while k < src.len()
                    invariant
                        k <= src@.len(),
                        src@ == self.links(from),
                        forall|j: int| 0 <= j < k ==> src@[j] != to,
                    decreases src@.len() - k,
                {
                    if same_coord(src[k], to) {
                        proof { assert(self.links(from)[k as int] == to); }
                        return true;
                    }
                    k = k + 1;
                }
                false
            },
            None => false,
        }
    }

    /// Number of carved cells.
    pub fn carved_count(&self) -> (r: usize)
        requires
            self.wf(),
        ensures
            r == count_true(self.carved_flags()),
    {
        let mut n: usize = 0;
        let mut i: usize = 0;
        while i < self.carved.len()
            invariant
                i <= self.carved@.len(),
                n == count_true(self.carved@.subrange(0, i as int)),
                n <= i,
            decreases self.carved@.len() - i,
        {
            assert(self.carved@.subrange(0, i + 1).drop_last() =~= self.carved@.subrange(0, i as int));
            if self.carved[i] {
                n = n + 1;
            }
            i = i + 1;
        }
        assert(self.carved@.subrange(0, self.carved@.len() as int) =~= self.carved@);
        n
    }

    /// The carved cells, in cell-number order.
    pub fn carved_cells(&self) -> (r: Vec<Coord>)
        requires
            self.wf(),
        ensures
            r@ == self.carved_list(),
    {
        let mut out: Vec<Coord> = Vec::new();
        let mut i: usize = 0;
        while i < self.carved.len()
            invariant
                extent_ok(self.extent),
                self.carved@.len() == cell_count(self.extent),
                i <= self.carved@.len(),
                out@ == carved_upto(self.extent, self.carved@, i as int),
            decreases self.carved@.len() - i,
        {
            if self.carved[i] {
                proof {
                    let (a, b, d) = (self.extent.0 as int, self.extent.1 as int, self.extent.2 as int);
                    assert(b * d <= a * b * d) by (nonlinear_arith)
                        requires a >= 1, b >= 1, d >= 1;
                }
                let c = index_to_coord(self.extent, i as u32);
                out.push(c);
            }
            i = i + 1;
        }
        out
    }
}

proof fn lemma_carved_upto(e: Extent, carved: Seq<bool>, n: int, k: int)
    requires
        0 <= n <= carved.len(),
        0 <= k < carved_upto(e, carved, n).len(),
    ensures
        exists|i: int| #![trigger index_coord(e, i)] 0 <= i < n && carved[i] && carved_upto(e, carved, n)[k] == index_coord(e, i),
    decreases n,
{
    let prev = carved_upto(e, carved, n - 1);
    if carved[n - 1] {
        assert(carved_upto(e, carved, n) == prev.push(index_coord(e, n - 1)));
    } else {
        assert(carved_upto(e, carved, n) == prev);
    }
    if k < prev.len() {
        lemma_carved_upto(e, carved, n - 1, k);
        let i = choose|i: int| #![trigger index_coord(e, i)] 0 <= i < n - 1 && carved[i] && prev[k] == index_coord(e, i);
        assert(carved_upto(e, carved, n)[k] == prev[k]);
        assert(0 <= i < n && carved[i] && carved_upto(e, carved, n)[k] == index_coord(e, i));
    } else {
        assert(carved_upto(e, carved, n)[k] == index_coord(e, n - 1));
    }
}

proof fn lemma_carved_upto_first(e: Extent, carved: Seq<bool>, n: int)
    requires
        1 <= n <= carved.len(),
        carved[0],
    ensures
        carved_upto(e, carved, n).len() > 0,
        carved_upto(e, carved, n)[0] == index_coord(e, 0),
    decreases n,
{
    if n > 1 {
        lemma_carved_upto_first(e, carved, n - 1);
        let prev = carved_upto(e, carved, n - 1);
        if carved[n - 1] {
            assert(carved_upto(e, carved, n) == prev.push(index_coord(e, n - 1)));
        } else {
            assert(carved_upto(e, carved, n) == prev);
        }
    } else {
        assert(carved_upto(e, carved, 0) == Seq::<Coord>::empty());
    }
}

proof fn lemma_carved_upto_distinct(e: Extent, carved: Seq<bool>, n: int)
    requires
        extent_ok(e),
        0 <= n <= carved.len(),
        carved.len() == cell_count(e),
    ensures
        carved_upto(e, carved, n).no_duplicates(),
        forall|k: int| 0 <= k < carved_upto(e, carved, n).len() ==> cell_index(e, #[trigger] carved_upto(e, carved, n)[k]) < n
            && in_extent(e, carved_upto(e, carved, n)[k]),
    decreases n,
{
    if n > 0 {
        lemma_carved_upto_distinct(e, carved, n - 1);
        let prev = carved_upto(e, carved, n - 1);
        lemma_index_coord(e, n - 1);
        if carved[n - 1] {
            let c = index_coord(e, n - 1);
            assert(carved_upto(e, carved, n) == prev.push(c));
            assert forall|k: int| 0 <= k < prev.len() implies prev[k] != c by {
                assert(cell_index(e, prev[k]) < n - 1);
            }
        } else {
            assert(carved_upto(e, carved, n) == prev);
        }
    }
}

/// The frontier of a maze being carved: distinct uncarved lattice cells of
/// the box, each flagged, each next to a carved cell.
pub open spec fn frontier_ok(e: Extent, carved: Seq<bool>, flags: Seq<bool>, frontier: Seq<Coord>) -> bool {
    &&& forall|a: int| 0 <= a < frontier.len() ==> {
        let f = #[trigger] frontier[a];
        &&& in_extent(e, f)
        &&& bcc_coord(f)
        &&& flags[cell_index(e, f)]
        &&& !carved[cell_index(e, f)]
        &&& has_carved_neighbor(e, carved, f)
    }
    &&& forall|a: int, b: int| 0 <= a < b < frontier.len() ==> cell_index(e, #[trigger] frontier[a]) != cell_index(
        e,
        #[trigger] frontier[b],
    )
}

/// `c` moved by offset `k` stays inside the box.
pub open spec fn step_in_box(e: Extent, c: Coord, k: int) -> bool {
    0 <= step(c, k).0 < e.0 && 0 <= step(c, k).1 < e.1 && 0 <= step(c, k).2 < e.2
}

/// `c` moved by offset `k`, as a coordinate.
pub open spec fn step_coord(c: Coord, k: int) -> Coord {
    (step(c, k).0 as i32, step(c, k).1 as i32, step(c, k).2 as i32)
}

/// Every flagged cell is on the frontier.
pub open spec fn flags_listed(e: Extent, flags: Seq<bool>, frontier: Seq<Coord>) -> bool {
    forall|i: int|
        0 <= i < flags.len() && #[trigger] flags[i] ==> exists|a: int|
            0 <= a < frontier.len() && cell_index(e, #[trigger] frontier[a]) == i
}

/// Every in-box lattice neighbour of a carved cell is carved or flagged.
pub open spec fn frontier_closed(e: Extent, carved: Seq<bool>, flags: Seq<bool>) -> bool {
    forall|c: Coord, k: int|
        in_extent(e, c) && carved[cell_index(e, c)] && 0 <= k < 14 && step_in_box(e, c, k) ==> carved[cell_index(
            e,
            #[trigger] step_coord(c, k),
        )] || flags[cell_index(e, step_coord(c, k))]
}

/// Carving the cell taken off the frontier, and then flagging its
/// neighbours, keeps every neighbour of a carved cell carved or flagged.
proof fn lemma_closed_after_carving(
    e: Extent,
    carved0: Seq<bool>,
    flags0: Seq<bool>,
    flags2: Seq<bool>,
    current: Coord,
)
    requires
        extent_ok(e),
        carved0.len() == cell_count(e),
        flags0.len() == cell_count(e),
        flags2.len() == cell_count(e),
        frontier_closed(e, carved0, flags0),
        in_extent(e, current),
        forall|i: int|
            0 <= i < cell_count(e) && #[trigger] flags0.update(cell_index(e, current), false)[i] ==> flags2[i],
        forall|k: int|
            0 <= k < 14 && step_in_box(e, current, k) ==> carved0.update(cell_index(e, current), true)[cell_index(
                e,
                #[trigger] step_coord(current, k),
            )] || flags2[cell_index(e, step_coord(current, k))],
    ensures
        frontier_closed(e, carved0.update(cell_index(e, current), true), flags2),
{
    let ci = cell_index(e, current);
    let carved1 = carved0.update(ci, true);
    let flags1 = flags0.update(ci, false);
    lemma_cell_index(e, current);
    assert forall|c: Coord, k: int|
        in_extent(e, c) && carved1[cell_index(e, c)] && 0 <= k < 14 && step_in_box(e, c, k) implies carved1[cell_index(
            e,
            #[trigger] step_coord(c, k),
        )] || flags2[cell_index(e, step_coord(c, k))] by {
        lemma_cell_index(e, c);
        let n = step_coord(c, k);
        lemma_cell_index(e, n);
        if cell_index(e, c) == ci {
            assert(c == current);
        } else {
            assert(carved0[cell_index(e, c)]);
            assert(carved0[cell_index(e, n)] || flags0[cell_index(e, n)]);
            if cell_index(e, n) != ci {
                assert(flags0[cell_index(e, n)] ==> flags1[cell_index(e, n)]);
            }
        }
    }
}

/// When every in-box neighbour of a carved cell is carved and the origin is
/// carved, every lattice point of the box is carved: walk down to the origin,
/// each step lowering the coordinate sum.
proof fn lemma_all_carved(e: Extent, carved: Seq<bool>, c: Coord)
    requires
        extent_ok(e),
        carved.len() == cell_count(e),
        carved[0],
        forall|d: Coord, k: int|
            in_extent(e, d) && carved[cell_index(e, d)] && 0 <= k < 14 && step_in_box(e, d, k) ==> carved[cell_index(
                e,
                #[trigger] step_coord(d, k),
            )],
        in_extent(e, c),
        bcc_coord(c),
    ensures
        carved[cell_index(e, c)],
    decreases c.0 + c.1 + c.2,
{
    if c.0 == 0 && c.1 == 0 && c.2 == 0 {
        assert(cell_index(e, c) == 0);
    } else {
        let k: int = if c.0 >= 1 && c.1 >= 1 && c.2 >= 1 {
            7
        } else if c.0 >= 2 {
            9
        } else if c.1 >= 2 {
            11
        } else {
            13
        };
        assert(0 <= step(c, k).0 && 0 <= step(c, k).1 && 0 <= step(c, k).2);
        let n = step_coord(c, k);
        lemma_step_parity(c, k);
        assert(in_extent(e, n));
        assert(bcc_coord(n));
        lemma_all_carved(e, carved, n);
        lemma_opposite(k);
        let k2 = opposite(k);
        assert(step_coord(n, k2) == c);
        assert(step_in_box(e, n, k2));
    }
}

/// Number of entries over all passage lists.
pub open spec fn link_total(links: Seq<Vec<Coord>>) -> nat
    decreases links.len(),
{
    if links.len() == 0 {
        0
    } else {
        link_total(links.drop_last()) + links.last()@.len()
    }
}

/// Lengthening one passage list by one entry adds one to the total.
proof fn lemma_link_total_grow(links: Seq<Vec<Coord>>, i: int, v: Vec<Coord>)
    requires
        0 <= i < links.len(),
        v@.len() == links[i]@.len() + 1,
    ensures
        link_total(links.update(i, v)) == link_total(links) + 1,
    decreases links.len(),
{
    if i < links.len() - 1 {
        assert(links.update(i, v).drop_last() =~= links.drop_last().update(i, v));
        lemma_link_total_grow(links.drop_last(), i, v);
    } else {
        assert(links.update(i, v).drop_last() =~= links.drop_last());
    }
}

/// Empty passage lists hold no entries.
proof fn lemma_link_total_empty(links: Seq<Vec<Coord>>)
    requires
        forall|i: int| 0 <= i < links.len() ==> (#[trigger] links[i])@.len() == 0,
    ensures
        link_total(links) == 0,
    decreases links.len(),
{
    if links.len() > 0 {
        lemma_link_total_empty(links.drop_last());
    }
}

/// The passage lists as sequences.
pub open spec fn links_view(conns: Seq<Vec<Coord>>) -> Seq<Seq<Coord>> {
    Seq::new(conns.len(), |i: int| conns[i]@)
}

/// The frontier and its flags after looking at the first `n` cells of
/// `ns` (the in-box neighbours of a newly carved cell): each lattice point
/// that is neither carved nor flagged joins the frontier and is flagged.
pub open spec fn extend_spec(
    e: Extent,
    carved: Seq<bool>,
    frontier: Seq<Coord>,
    flags: Seq<bool>,
    ns: Seq<Coord>,
    n: int,
) -> (Seq<Coord>, Seq<bool>)
    decreases n,
{
    if n <= 0 {
        (frontier, flags)
    } else {
        let prev = extend_spec(e, carved, frontier, flags, ns, n - 1);
        let nb = ns[n - 1];
        let ni = cell_index(e, nb);
        if bcc_coord(nb) && !carved[ni] && !prev.1[ni] {
            (prev.0.push(nb), prev.1.update(ni, true))
        } else {
            prev
        }
    }
}

/// The carved lattice points among the first `m` cells of `ns`, in order.
pub open spec fn carved_among(e: Extent, carved: Seq<bool>, ns: Seq<Coord>, m: int) -> Seq<Coord>
    decreases m,
{
    if m <= 0 {
        Seq::empty()
    } else {
        let rest = carved_among(e, carved, ns, m - 1);
        let n = ns[m - 1];
        if bcc_coord(n) && carved[cell_index(e, n)] {
            rest.push(n)
        } else {
            rest
        }
    }
}

/// Two passage lists lengthened by one entry each, the others unchanged.
proof fn lemma_links_view_two(
    before: Seq<Vec<Coord>>,
    after: Seq<Vec<Coord>>,
    ci: int,
    pi: int,
    parent: Coord,
    current: Coord,
)
    requires
        before.len() == after.len(),
        0 <= ci < before.len(),
        0 <= pi < before.len(),
        ci != pi,
        after[ci]@ == before[ci]@.push(parent),
        after[pi]@ == before[pi]@.push(current),
        forall|i: int| 0 <= i < before.len() && i != ci && i != pi ==> after[i] == before[i],
    ensures
        links_view(after) == links_view(before).update(ci, before[ci]@.push(parent)).update(
            pi,
            before[pi]@.push(current),
        ),
{
    assert(links_view(after) =~= links_view(before).update(ci, before[ci]@.push(parent)).update(
        pi,
        before[pi]@.push(current),
    ));
}

/// Carving a cell that is not on the frontier keeps the frontier valid.
proof fn lemma_frontier_grows(e: Extent, before: Seq<bool>, after: Seq<bool>, flags: Seq<bool>, frontier: Seq<Coord>)
    requires
        extent_ok(e),
        frontier_ok(e, before, flags, frontier),
        before.len() == cell_count(e),
        before.len() == after.len(),
        forall|i: int| 0 <= i < before.len() && before[i] ==> after[i],
        forall|a: int| 0 <= a < frontier.len() ==> !after[cell_index(e, #[trigger] frontier[a])],
    ensures
        frontier_ok(e, after, flags, frontier),
{
    assert forall|a: int| 0 <= a < frontier.len() implies has_carved_neighbor(e, after, #[trigger] frontier[a]) by {
        let f = frontier[a];
        let k = choose|k: int|
            0 <= k < 14 && 0 <= #[trigger] step(f, k).0 < e.0 && 0 <= step(f, k).1 < e.1 && 0 <= step(f, k).2
                < e.2 && before[cell_index(e, (step(f, k).0 as i32, step(f, k).1 as i32, step(f, k).2 as i32))];
        let n = (step(f, k).0 as i32, step(f, k).1 as i32, step(f, k).2 as i32);
        lemma_cell_index(e, n);
        assert(before[cell_index(e, n)]);
        assert(after[cell_index(e, n)]);
    }
}

/// Takes frontier entry `pick` off the frontier and clears its flag.
fn take_from_frontier(
    extent: Extent,
    carved: &Vec<bool>,
    frontier: &mut Vec<Coord>,
    in_frontier: &mut Vec<bool>,
    pick: usize,
) -> (current: Coord)
    requires
        extent_ok(extent),
        carved@.len() == cell_count(extent),
        old(in_frontier)@.len() == cell_count(extent),
        frontier_ok(extent, carved@, old(in_frontier)@, old(frontier)@),
        flags_listed(extent, old(in_frontier)@, old(frontier)@),
        pick < old(frontier)@.len(),
    ensures
        current == old(frontier)@[pick as int],
        in_extent(extent, current),
        bcc_coord(current),
        !carved@[cell_index(extent, current)],
        has_carved_neighbor(extent, carved@, current),
        final(in_frontier)@ == old(in_frontier)@.update(cell_index(extent, current), false),
        final(frontier)@.len() + 1 == old(frontier)@.len(),
        frontier_ok(extent, carved@, final(in_frontier)@, final(frontier)@),
        flags_listed(extent, final(in_frontier)@, final(frontier)@),
        forall|a: int| 0 <= a < final(frontier)@.len() ==> cell_index(extent, #[trigger] final(frontier)@[a]) != cell_index(extent, current),
        final(frontier)@ == old(frontier)@.update(pick as int, old(frontier)@.last()).drop_last(),
{
    let ghost f_before = frontier@;
    let current = frontier.swap_remove(pick);
    proof {
        lemma_cell_index(extent, current);
        assert forall|a: int| 0 <= a < frontier@.len() implies #[trigger] frontier@[a] == (if a == pick as int {
            f_before.last()
        } else {
            f_before[a]
        }) && cell_index(extent, frontier@[a]) != cell_index(extent, current) by {
            if a == pick as int {
                assert(frontier@[a] == f_before[f_before.len() - 1]);
            }
        }
    }
    let ci = match coord_to_index(extent, current) { Some(v) => v as usize, None => 0 };
    let ghost if_before = in_frontier@;
    in_frontier.set(ci, false);
    proof {
        assert forall|a: int| 0 <= a < frontier@.len() implies {
            let f = #[trigger] frontier@[a];
            &&& in_extent(extent, f)
            &&& bcc_coord(f)
            &&& in_frontier@[cell_index(extent, f)]
            &&& !carved@[cell_index(extent, f)]
            &&& has_carved_neighbor(extent, carved@, f)
        } by {
            let a0 = if a == pick as int { f_before.len() - 1 } else { a };
            assert(frontier@[a] == f_before[a0]);
            assert(if_before[cell_index(extent, f_before[a0])]);
            lemma_cell_index(extent, f_before[a0]);
        }
        assert forall|a: int, b: int| 0 <= a < b < frontier@.len() implies cell_index(extent, #[trigger] frontier@[a])
            != cell_index(extent, #[trigger] frontier@[b]) by {
            let a0 = if a == pick as int { f_before.len() - 1 } else { a };
            let b0 = if b == pick as int { f_before.len() - 1 } else { b };
            if a0 < b0 {
                assert(cell_index(extent, f_before[a0]) != cell_index(extent, f_before[b0]));
            } else {
                assert(cell_index(extent, f_before[b0]) != cell_index(extent, f_before[a0]));
            }
        }
        assert forall|i: int| 0 <= i < in_frontier@.len() && #[trigger] in_frontier@[i] implies exists|a: int|
            0 <= a < frontier@.len() && cell_index(extent, #[trigger] frontier@[a]) == i by {
            assert(i != ci as int);
            assert(if_before[i]);
            let a0 = choose|a: int| 0 <= a < f_before.len() && cell_index(extent, #[trigger] f_before[a]) == i;
            assert(a0 != pick as int);
            if a0 == f_before.len() - 1 {
                assert(frontier@[pick as int] == f_before[a0]);
            } else {
                assert(frontier@[a0] == f_before[a0]);
            }
        }
    }
    current
}

/// The carved lattice neighbours of a frontier cell, in offset order; there is at least one.
fn carved_neighbors_of(extent: Extent, carved: &Vec<bool>, current: Coord) -> (r: Vec<Coord>)
    requires
        extent_ok(extent),
        carved@.len() == cell_count(extent),
        in_extent(extent, current),
        bcc_coord(current),
        has_carved_neighbor(extent, carved@, current),
    ensures
        r@.len() > 0,
        forall|k: int| 0 <= k < r@.len() ==> {
            let n = #[trigger] r@[k];
            &&& in_extent(extent, n)
            &&& lattice_step(current, n)
            &&& carved@[cell_index(extent, n)]
        },
        r@ == carved_among(extent, carved@, box_neighbors(extent, current), box_neighbors(extent, current).len() as int),
{
    let neighbors = get_neighbors(extent, current);
    proof { lemma_box_neighbors(extent, current, 14); }
    let mut out: Vec<Coord> = Vec::new();
    let mut m: usize = 0;
    while m < neighbors.len()
        invariant
            extent_ok(extent),
            carved@.len() == cell_count(extent),
            m <= neighbors.len(),
            neighbors@ == box_neighbors(extent, current),
            forall|k: int| 0 <= k < neighbors@.len() ==> in_extent(extent, #[trigger] neighbors@[k]) && lattice_step(
                current,
                neighbors@[k],
            ),
            forall|k: int| 0 <= k < out@.len() ==> {
                let n = #[trigger] out@[k];
                &&& in_extent(extent, n)
                &&& lattice_step(current, n)
                &&& carved@[cell_index(extent, n)]
            },
            forall|k: int|
                0 <= k < m && bcc_coord(#[trigger] neighbors@[k]) && carved@[cell_index(extent, neighbors@[k])] ==> out@.len()
                    > 0,
            out@ == carved_among(extent, carved@, neighbors@, m as int),
        decreases neighbors.len() - m,
    {
        let n = neighbors[m];
        proof { lemma_cell_index(extent, n); assert(neighbors@[m as int] == n); }
        let ni = match coord_to_index(extent, n) { Some(v) => v as usize, None => 0 };
        if is_valid_bcc(n) && carved[ni] {
            out.push(n);
        }
        m = m + 1;
    }
    proof {
        let k = choose|k: int|
            0 <= k < 14 && 0 <= #[trigger] step(current, k).0 < extent.0 && 0 <= step(current, k).1 < extent.1 && 0
                <= step(current, k).2 < extent.2 && carved@[cell_index(
                extent,
                (step(current, k).0 as i32, step(current, k).1 as i32, step(current, k).2 as i32),
            )];
        let b = (step(current, k).0 as i32, step(current, k).1 as i32, step(current, k).2 as i32);
        lemma_box_neighbors_has(extent, current, 14, k);
        let w = choose|w: int| 0 <= w < neighbors@.len() && neighbors@[w] == b;
        lemma_step_parity(current, k);
        assert(bcc_coord(neighbors@[w]));
    }
    out
}

/// Carves `current` and opens a passage each way between it and `parent`.
#[verifier::spinoff_prover]
fn join(
    extent: Extent,
    carved: &mut Vec<bool>,
    connections: &mut Vec<Vec<Coord>>,
    current: Coord,
    parent: Coord,
)
    requires
        extent_ok(extent),
        old(carved)@.len() == cell_count(extent),
        old(connections)@.len() == cell_count(extent),
        in_extent(extent, current),
        in_extent(extent, parent),
        !old(carved)@[cell_index(extent, current)],
        old(carved)@[cell_index(extent, parent)],
        lattice_step(current, parent),
        passages_ok(extent, old(carved)@, old(connections)@),
    ensures
        final(carved)@ == old(carved)@.update(cell_index(extent, current), true),
        final(connections)@.len() == old(connections)@.len(),
        passages_ok(extent, final(carved)@, final(connections)@),
        links_grew(old(connections)@, final(connections)@),
        final(connections)@[cell_index(extent, parent)]@.contains(current),
        link_total(final(connections)@) == link_total(old(connections)@) + 2,
        links_view(final(connections)@) == links_view(old(connections)@).update(
            cell_index(extent, current),
            old(connections)@[cell_index(extent, current)]@.push(parent),
        ).update(cell_index(extent, parent), old(connections)@[cell_index(extent, parent)]@.push(current)),
{
    proof {
        lemma_cell_index(extent, current);
        lemma_cell_index(extent, parent);
    }
    let ci = match coord_to_index(extent, current) { Some(v) => v as usize, None => 0 };
    let pi = match coord_to_index(extent, parent) { Some(v) => v as usize, None => 0 };
    let ghost l_before = connections@;
    carved.set(ci, true);
    connections[ci].push(parent);
    connections[pi].push(current);
    proof {
        let k = choose|k: int| 0 <= k < 14 && #[trigger] step(current, k) == (parent.0 as int, parent.1 as int, parent.2 as int);
        lemma_opposite(k);
        assert(step(parent, opposite(k)) == (current.0 as int, current.1 as int, current.2 as int));
        assert(lattice_step(parent, current));
        assert(connections@[ci as int]@ == l_before[ci as int]@.push(parent));
        assert(connections@[pi as int]@ == l_before[pi as int]@.push(current));

        assert forall|i: int, k2: int|
            #![trigger connections@[i]@[k2]]
            0 <= i < connections@.len() && 0 <= k2 < connections@[i]@.len() implies {
                let n = connections@[i]@[k2];
                &&& in_extent(extent, n)
                &&& carved@[i]
                &&& carved@[cell_index(extent, n)]
                &&& lattice_step(index_coord(extent, i), n)
                &&& connections@[cell_index(extent, n)]@.contains(index_coord(extent, i))
            } by {
            let n = connections@[i]@[k2];
            if i == ci as int && k2 == l_before[i]@.len() {
                assert(connections@[pi as int]@[l_before[pi as int]@.len() as int] == current);
            } else if i == pi as int && k2 == l_before[i]@.len() {
                assert(connections@[ci as int]@[l_before[ci as int]@.len() as int] == parent);
            } else {
                assert(n == l_before[i]@[k2]);
                lemma_cell_index(extent, n);
                let back = index_coord(extent, i);
                let ni = cell_index(extent, n);
                let w = choose|w: int| 0 <= w < l_before[ni]@.len() && l_before[ni]@[w] == back;
                assert(connections@[ni]@[w] == back);
            }
        }
    }
    proof {
        assert(connections@[pi as int]@[l_before[pi as int]@.len() as int] == current);
        assert(links_grew(l_before, connections@)) by {
            assert forall|i: int, k: int|
                0 <= i < l_before.len() && 0 <= k < l_before[i]@.len() implies k < connections@[i]@.len()
                    && #[trigger] connections@[i]@[k] == l_before[i]@[k] by {
                if i != ci as int && i != pi as int {
                    assert(connections@[i] == l_before[i]);
                }
            }
        }
        assert(ci != pi) by {
            let k = choose|k: int| 0 <= k < 14 && #[trigger] step(current, k) == (parent.0 as int, parent.1 as int, parent.2 as int);
        }
        let mid = l_before.update(ci as int, connections@[ci as int]);
        lemma_link_total_grow(l_before, ci as int, connections@[ci as int]);
        lemma_link_total_grow(mid, pi as int, connections@[pi as int]);
        lemma_links_view_two(l_before, connections@, ci as int, pi as int, parent, current);
        assert(connections@ =~= mid.update(pi as int, connections@[pi as int])) by {
            assert forall|i: int| 0 <= i < connections@.len() implies connections@[i] == mid.update(
                pi as int,
                connections@[pi as int],
            )[i] by {
                if i != ci as int && i != pi as int {
                    assert(connections@[i] == l_before[i]);
                }
            }
        }
    }
}

/// Adds to the frontier every uncarved lattice neighbour of the carved cell
/// `current` that is not on it yet, in offset order.
fn extend_frontier(
    extent: Extent,
    carved: &Vec<bool>,
    frontier: &mut Vec<Coord>,
    in_frontier: &mut Vec<bool>,
    current: Coord,
)
    requires
        extent_ok(extent),
        carved@.len() == cell_count(extent),
        old(in_frontier)@.len() == cell_count(extent),
        in_extent(extent, current),
        bcc_coord(current),
        carved@[cell_index(extent, current)],
        frontier_ok(extent, carved@, old(in_frontier)@, old(frontier)@),
        flags_listed(extent, old(in_frontier)@, old(frontier)@),
    ensures
        final(in_frontier)@.len() == cell_count(extent),
        frontier_ok(extent, carved@, final(in_frontier)@, final(frontier)@),
        flags_listed(extent, final(in_frontier)@, final(frontier)@),
        forall|i: int| 0 <= i < cell_count(extent) && #[trigger] old(in_frontier)@[i] ==> final(in_frontier)@[i],
        forall|k: int|
            0 <= k < 14 && step_in_box(extent, current, k) ==> carved@[cell_index(extent, #[trigger] step_coord(current, k))]
                || final(in_frontier)@[cell_index(extent, step_coord(current, k))],
        (final(frontier)@, final(in_frontier)@) == extend_spec(
            extent,
            carved@,
            old(frontier)@,
            old(in_frontier)@,
            box_neighbors(extent, current),
            box_neighbors(extent, current).len() as int,
        ),
{
    let ghost flags0 = in_frontier@;
    let ghost frontier0 = frontier@;
    let neighbors = get_neighbors(extent, current);
    proof {
        lemma_box_neighbors(extent, current, 14);
        lemma_cell_index(extent, current);
    }
    let mut q: usize = 0;
    while q < neighbors.len()
        invariant
            extent_ok(extent),
            carved@.len() == cell_count(extent),
            in_frontier@.len() == cell_count(extent),
            q <= neighbors.len(),
            in_extent(extent, current),
            bcc_coord(current),
            carved@[cell_index(extent, current)],
            neighbors@ == box_neighbors(extent, current),
            forall|k: int| 0 <= k < neighbors@.len() ==> in_extent(extent, #[trigger] neighbors@[k]) && lattice_step(
                current,
                neighbors@[k],
            ),
            frontier_ok(extent, carved@, in_frontier@, frontier@),
            flags_listed(extent, in_frontier@, frontier@),
            flags0.len() == cell_count(extent),
            forall|i: int| 0 <= i < cell_count(extent) && #[trigger] flags0[i] ==> in_frontier@[i],
            (frontier@, in_frontier@) == extend_spec(extent, carved@, frontier0, flags0, neighbors@, q as int),
            forall|j: int|
                0 <= j < q ==> carved@[cell_index(extent, #[trigger] neighbors@[j])] || in_frontier@[cell_index(
                    extent,
                    neighbors@[j],
                )],
        decreases neighbors.len() - q,
    {
        let n = neighbors[q];
        let ghost flags_at_start = in_frontier@;
        let ghost front_at_start = frontier@;
        proof { lemma_cell_index(extent, n); }
        let ni = match coord_to_index(extent, n) { Some(v) => v as usize, None => 0 };
        proof {
            let k = choose|k: int| 0 <= k < 14 && #[trigger] step(current, k) == (n.0 as int, n.1 as int, n.2 as int);
            lemma_step_parity(current, k);
        }
        if is_valid_bcc(n) && !carved[ni] && !in_frontier[ni] {
            proof {
                lemma_cell_index(extent, current);
                let k = choose|k: int| 0 <= k < 14 && #[trigger] step(current, k) == (n.0 as int, n.1 as int, n.2 as int);
                lemma_opposite(k);
                assert(step(n, opposite(k)) == (current.0 as int, current.1 as int, current.2 as int));
                assert(has_carved_neighbor(extent, carved@, n));
                assert forall|a: int| 0 <= a < frontier@.len() implies cell_index(extent, #[trigger] frontier@[a]) != ni as int by {
                    assert(in_frontier@[cell_index(extent, frontier@[a])]);
                }
            }
            let ghost fr_before = frontier@;
            let ghost if_before = in_frontier@;
            frontier.push(n);
            in_frontier.set(ni, true);
            proof {
                assert forall|a: int| 0 <= a < frontier@.len() implies {
                    let f = #[trigger] frontier@[a];
                    &&& in_extent(extent, f)
                    &&& bcc_coord(f)
                    &&& in_frontier@[cell_index(extent, f)]
                    &&& !carved@[cell_index(extent, f)]
                    &&& has_carved_neighbor(extent, carved@, f)
                } by {
                    if a < fr_before.len() {
                        assert(frontier@[a] == fr_before[a]);
                        assert(if_before[cell_index(extent, fr_before[a])]);
                        lemma_cell_index(extent, fr_before[a]);
                    } else {
                        assert(frontier@[a] == n);
                    }
                }
                assert forall|a: int, b: int| 0 <= a < b < frontier@.len() implies cell_index(extent, #[trigger] frontier@[a])
                    != cell_index(extent, #[trigger] frontier@[b]) by {
                    assert(frontier@[a] == fr_before[a]);
                    if b < fr_before.len() {
                        assert(frontier@[b] == fr_before[b]);
                    }
                }
                assert forall|i: int| 0 <= i < in_frontier@.len() && #[trigger] in_frontier@[i] implies exists|a: int|
                    0 <= a < frontier@.len() && cell_index(extent, #[trigger] frontier@[a]) == i by {
                    if i == ni as int {
                        assert(frontier@[fr_before.len() as int] == n);
                    } else {
                        assert(if_before[i]);
                        let a = choose|a: int| 0 <= a < fr_before.len() && cell_index(extent, #[trigger] fr_before[a]) == i;
                        assert(frontier@[a] == fr_before[a]);
                    }
                }
            }
        }
        proof {
            assert(carved@[ni as int] || in_frontier@[ni as int]);
            assert forall|i: int| 0 <= i < cell_count(extent) && #[trigger] flags_at_start[i] implies in_frontier@[i] by {}
            assert(neighbors@[q as int] == n);
            assert(ni as int == cell_index(extent, n));
            assert((frontier@, in_frontier@) == extend_spec(extent, carved@, frontier0, flags0, neighbors@, q + 1));
            assert forall|j: int| 0 <= j < q + 1 implies carved@[cell_index(extent, #[trigger] neighbors@[j])]
                || in_frontier@[cell_index(extent, neighbors@[j])] by {
                lemma_cell_index(extent, neighbors@[j]);
                if j < q {
                    assert(carved@[cell_index(extent, neighbors@[j])] || flags_at_start[cell_index(extent, neighbors@[j])]);
                }
            }
        }
        q = q + 1;
    }
    assert forall|k: int| 0 <= k < 14 && step_in_box(extent, current, k) implies carved@[cell_index(
        extent,
        #[trigger] step_coord(current, k),
    )] || in_frontier@[cell_index(extent, step_coord(current, k))] by {
        lemma_box_neighbors_has(extent, current, 14, k);
        let j = choose|j: int| 0 <= j < neighbors@.len() && neighbors@[j] == step_coord(current, k);
        assert(carved@[cell_index(extent, neighbors@[j])] || in_frontier@[cell_index(extent, neighbors@[j])]);
    }
}

} // verus!
