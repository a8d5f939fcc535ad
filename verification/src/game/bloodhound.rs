//! The bloodhound survival mode: spikes that make the player scream,
//! bloodhounds released by screams, and blood trails they follow.

use vstd::prelude::*;
use crate::game::maze::{
    bcc_coord, carved_upto, cell_count, cell_index, coord_to_index, count_true, extent_ok, in_extent, lemma_cell_index,
    same_coord, Coord, Extent, Maze,
};
use crate::game::pathfind::{astar_pathfind, heuristic, is_floor_sqrt, isqrt, dist_sq_spec, is_walk, walk_between};
use crate::game::play::{add_coord, key_delta, target_of};
use crate::game::rng::SeededRng;

verus! {

/// Squared Euclidean distance between two cells, exactly.
pub fn dist_sq(a: Coord, b: Coord) -> (r: i64)
    requires
        dist_sq_spec(a, b) <= i64::MAX,
    ensures
        r == dist_sq_spec(a, b),
        0 <= r,
{
    let dx: i128 = a.0 as i128 - b.0 as i128;
    let dy: i128 = a.1 as i128 - b.1 as i128;
    let dz: i128 = a.2 as i128 - b.2 as i128;
    assert(0 <= dx * dx <= 0x1_0000_0000_0000_0000 && 0 <= dy * dy <= 0x1_0000_0000_0000_0000 && 0 <= dz * dz
        <= 0x1_0000_0000_0000_0000) by (nonlinear_arith)
        requires
            -0x1_0000_0000 <= dx <= 0x1_0000_0000,
            -0x1_0000_0000 <= dy <= 0x1_0000_0000,
            -0x1_0000_0000 <= dz <= 0x1_0000_0000,
    ;
    let s: i128 = dx * dx + dy * dy + dz * dz;
    s as i64
}

/// Two cells of one admissible extent are close enough for [`dist_sq`].
pub proof fn lemma_dist_sq_fits(e: Extent, a: Coord, b: Coord)
    requires
        extent_ok(e),
        in_extent(e, a),
        in_extent(e, b),
    ensures
        0 <= dist_sq_spec(a, b) <= 0x3000_0000_0000_0000,
{
    let dx = a.0 - b.0;
    let dy = a.1 - b.1;
    let dz = a.2 - b.2;
    assert(0 <= dx * dx <= 0x1000_0000_0000_0000 && 0 <= dy * dy <= 0x1000_0000_0000_0000 && 0 <= dz * dz
        <= 0x1000_0000_0000_0000) by (nonlinear_arith)
        requires
            -0x4000_0000 <= dx <= 0x4000_0000,
            -0x4000_0000 <= dy <= 0x4000_0000,
            -0x4000_0000 <= dz <= 0x4000_0000,
    ;
}

/// Neither the start nor the goal.
pub open spec fn off_endpoints(start: Coord, goal: Coord) -> spec_fn(Coord) -> bool {
    |c: Coord| c != start && c != goal
}

/// The seed of a level's spikes: the level's maze seed with its bits mixed
/// by a fixed odd constant, so that spikes and maze draw different streams.
pub fn spike_seed(level_seed: u64) -> (r: u64)
    ensures
        r == level_seed ^ 0x9E37_79B9_7F4A_7C15u64,
{
    level_seed ^ 0x9E37_79B9_7F4A_7C15
}

/// Rolls spikes into about `prob_percent` percent of the carved cells, start
/// and goal excluded: each such cell in turn, in cell-number order, gets a
/// spike when a roll below 100 comes out under `prob_percent`. Every spike
/// cell is a carved cell of the maze other than the start and the goal,
/// listed once, in cell-number order; at 0 percent there is none, and from
/// 100 percent on every such cell has one.
pub fn generate_spikes(maze: &Maze, seed: u64, prob_percent: u32) -> (r: Vec<Coord>)
    requires
        maze.wf(),
    ensures
        forall|k: int| 0 <= k < r@.len() ==> {
            let c = #[trigger] r@[k];
            &&& maze.carved_at(c)
            &&& c != maze.spec_start()
            &&& c != maze.spec_goal()
            &&& maze.carved_list().contains(c)
        },
        r@.no_duplicates(),
        prob_percent == 0 ==> r@.len() == 0,
        prob_percent >= 100 ==> r@ == maze.carved_list().filter(off_endpoints(maze.spec_start(), maze.spec_goal())),
{
    let mut rng = SeededRng::new(seed);
    let cells = maze.carved_cells();
    let start = maze.start();
    let goal = maze.goal();
    proof {
        maze.lemma_carved_list();
        maze.lemma_carved_list_distinct();
    }
    let mut spikes: Vec<Coord> = Vec::new();
    let mut i: usize = 0;
    while i < cells.len()
        invariant
            maze.wf(),
            cells@ == maze.carved_list(),
            cells@.no_duplicates(),
            start == maze.spec_start(),
            goal == maze.spec_goal(),
            i <= cells@.len(),
            forall|k: int| 0 <= k < cells@.len() ==> maze.carved_at(#[trigger] cells@[k]),
            forall|k: int| 0 <= k < spikes@.len() ==> {
                let c = #[trigger] spikes@[k];
                &&& maze.carved_at(c)
                &&& c != start
                &&& c != goal
                &&& exists|j: int| 0 <= j < i && cells@[j] == c
            },
            spikes@.no_duplicates(),
            prob_percent == 0 ==> spikes@.len() == 0,
            prob_percent >= 100 ==> spikes@ == cells@.take(i as int).filter(off_endpoints(start, goal)),
        decreases cells@.len() - i,
    {
        let cell = cells[i];
        proof {
            reveal(Seq::filter);
            assert(cells@.take(i + 1).drop_last() =~= cells@.take(i as int));
            assert(cells@.take(i + 1).last() == cell);
        }
        if !same_coord(cell, start) && !same_coord(cell, goal) {
            if rng.percent() < prob_percent {
                proof {
                    assert forall|k: int| 0 <= k < spikes@.len() implies spikes@[k] != cell by {
                        let j = choose|j: int| 0 <= j < i && cells@[j] == spikes@[k];
                        assert(cells@[j] != cells@[i as int]);
                    }
                }
                let ghost before = spikes@;
                spikes.push(cell);
                proof {
                    assert forall|k: int| 0 <= k < spikes@.len() implies {
                        let c = #[trigger] spikes@[k];
                        &&& maze.carved_at(c)
                        &&& c != start
                        &&& c != goal
                        &&& exists|j: int| 0 <= j < i + 1 && cells@[j] == c
                    } by {
                        if k < before.len() {
                            assert(spikes@[k] == before[k]);
                            let j = choose|j: int| 0 <= j < i && cells@[j] == before[k];
                            assert(cells@[j] == spikes@[k]);
                        } else {
                            assert(cells@[i as int] == spikes@[k]);
                        }
                    }
                }
            }
        }
        i = i + 1;
    }
    proof {
        assert(cells@.take(cells@.len() as int) =~= cells@);
        assert forall|k: int| 0 <= k < spikes@.len() implies maze.carved_list().contains(#[trigger] spikes@[k]) by {
            let j = choose|j: int| 0 <= j < cells@.len() && cells@[j] == spikes@[k];
            assert(cells@[j] == spikes@[k]);
        }
    }
    spikes
}

/// Corner `k` (0 <= k < 8) of the box, in the order x, then y, then z
/// (bit 2 of `k` picks the far x side, bit 1 the far y side, bit 0 the far z side).
pub open spec fn corner(e: Extent, k: int) -> Coord {
    (
        if (k / 4) % 2 == 1 { (e.0 - 1) as i32 } else { 0i32 },
        if (k / 2) % 2 == 1 { (e.1 - 1) as i32 } else { 0i32 },
        if k % 2 == 1 { (e.2 - 1) as i32 } else { 0i32 },
    )
}

/// Where a released hound spawns, seen from `from`: the carved cell nearest
/// to the corner of the box farthest from `from` (the first such corner in
/// corner order, then the first such cell in cell-number order).
pub open spec fn corner_spawn(maze: Maze, from: Coord, r: Coord) -> bool {
    &&& maze.carved_at(r)
    &&& exists|k: int| #![trigger corner(maze.spec_extent(), k)] 0 <= k < 8 && {
        let c = corner(maze.spec_extent(), k);
        &&& forall|k2: int| 0 <= k2 < 8 ==> dist_sq_spec(#[trigger] corner(maze.spec_extent(), k2), from) <= dist_sq_spec(c, from)
        &&& forall|k2: int| 0 <= k2 < k ==> dist_sq_spec(#[trigger] corner(maze.spec_extent(), k2), from) < dist_sq_spec(c, from)
        &&& forall|j: int| 0 <= j < maze.carved_list().len() ==> dist_sq_spec(r, c) <= dist_sq_spec(#[trigger] maze.carved_list()[j], c)
        &&& exists|j: int| 0 <= j < maze.carved_list().len() && r == maze.carved_list()[j] && forall|j2: int|
            0 <= j2 < j ==> dist_sq_spec(r, c) < dist_sq_spec(#[trigger] maze.carved_list()[j2], c)
    }
}

/// The carved cell nearest the corner of the box that is furthest from
/// `from`: where a new bloodhound is released.
pub fn furthest_corner_spawn(maze: &Maze, from: Coord) -> (r: Coord)
    requires
        maze.wf(),
        in_extent(maze.spec_extent(), from),
    ensures
        corner_spawn(*maze, from, r),
{
    let e = maze.extent();
    proof { maze.lemma_wf_extent(); }
    let xs: [i32; 2] = [0, (e.0 - 1) as i32];
    let ys: [i32; 2] = [0, (e.1 - 1) as i32];
    let zs: [i32; 2] = [0, (e.2 - 1) as i32];
    let mut best_corner = from;
    let mut best_corner_d: i64 = -1;
    let ghost mut best_k: int = -1;
    let mut k: usize = 0;
    while k < 8
        invariant
            extent_ok(e),
            e == maze.spec_extent(),
            in_extent(e, from),
            xs@ == seq![0i32, (e.0 - 1) as i32],
            ys@ == seq![0i32, (e.1 - 1) as i32],
            zs@ == seq![0i32, (e.2 - 1) as i32],
            k <= 8,
            k == 0 ==> best_corner_d == -1,
            k > 0 ==> 0 <= best_k < k && best_corner == corner(e, best_k) && best_corner_d == dist_sq_spec(best_corner, from),
            forall|k2: int| 0 <= k2 < k ==> dist_sq_spec(#[trigger] corner(e, k2), from) <= best_corner_d,
            forall|k2: int| 0 <= k2 < best_k ==> dist_sq_spec(#[trigger] corner(e, k2), from) < best_corner_d,
        decreases 8 - k,
    {
        let c = (xs[k / 4], ys[(k / 2) % 2], zs[k % 2]);
        proof {
            assert(c == corner(e, k as int));
            lemma_dist_sq_fits(e, c, from);
        }
        let d = dist_sq(c, from);
        proof {
            assert(d >= 0) by (nonlinear_arith)
                requires d == dist_sq_spec(c, from);
        }
        if d > best_corner_d {
            best_corner_d = d;
            best_corner = c;
            proof { best_k = k as int; }
        }
        k = k + 1;
    }
    let cells = maze.carved_cells();
    proof { maze.lemma_carved_list(); }
    let mut spawn = maze.start();
    let mut best_d: i64 = i64::MAX;
    let ghost mut best_j: int = 0;
    let mut i: usize = 0;
    proof { maze.lemma_start_carved(); }
    while i < cells.len()
        invariant
            maze.wf(),
            extent_ok(e),
            e == maze.spec_extent(),
            cells@ == maze.carved_list(),
            forall|j: int| 0 <= j < cells@.len() ==> maze.carved_at(#[trigger] cells@[j]),
            in_extent(e, best_corner),
            maze.carved_at(spawn),
            i <= cells@.len(),
            i > 0 ==> best_d == dist_sq_spec(spawn, best_corner),
            i == 0 ==> best_d == i64::MAX,
            forall|j: int| 0 <= j < i ==> best_d <= dist_sq_spec(#[trigger] cells@[j], best_corner),
            i > 0 ==> 0 <= best_j < i && spawn == cells@[best_j],
            forall|j: int| 0 <= j < best_j ==> best_d < dist_sq_spec(#[trigger] cells@[j], best_corner),
        decreases cells@.len() - i,
    {
        let cell = cells[i];
        proof {
            assert(maze.carved_at(cell));
            maze.lemma_carved_in_extent(cell);
            lemma_dist_sq_fits(e, cell, best_corner);
        }
        let d = dist_sq(cell, best_corner);
        if d < best_d {
            best_d = d;
            spawn = cell;
            proof { best_j = i as int; }
        }
        i = i + 1;
    }
    proof {
        if cells@.len() == 0 {
            maze.lemma_start_in_list();
        }
        assert(cells@.len() > 0) by { maze.lemma_start_in_list(); }
        assert(0 <= best_k < 8);
        let c = corner(e, best_k);
        assert forall|j: int| 0 <= j < maze.carved_list().len() implies dist_sq_spec(spawn, c) <= dist_sq_spec(#[trigger] maze.carved_list()[j], c) by {
            assert(cells@[j] == maze.carved_list()[j]);
        }
        assert forall|j2: int| 0 <= j2 < best_j implies dist_sq_spec(spawn, c) < dist_sq_spec(#[trigger] maze.carved_list()[j2], c) by {
            assert(cells@[j2] == maze.carved_list()[j2]);
        }
        assert(spawn == maze.carved_list()[best_j]);
    }
    spawn
}

/// The blood on a cell is fresher than evidence from turn `ev`.
pub open spec fn fresh_blood(b: Option<u64>, ev: u64) -> bool {
    b matches Some(age) && age > ev
}

/// A pursuing bloodhound: where it is, the cell it walks toward, the last
/// known scent of the player, the turn of the freshest evidence it follows,
/// and how often it has been on each cell (by cell number).
pub struct Bloodhound {
    pos: Coord,
    target: Coord,
    anchor: Coord,
    evidence_turn: u64,
    visits: Vec<u32>,
}

impl Bloodhound {
    /// Where the hound is.
    pub closed spec fn spec_pos(&self) -> Coord {
        self.pos
    }

    /// The cell it walks toward.
    pub closed spec fn spec_target(&self) -> Coord {
        self.target
    }

    /// The last known scent of the player.
    pub closed spec fn spec_anchor(&self) -> Coord {
        self.anchor
    }

    /// Turn of the freshest evidence it follows.
    pub closed spec fn spec_evidence_turn(&self) -> u64 {
        self.evidence_turn
    }

    /// Visits per cell number.
    pub closed spec fn spec_visits(&self) -> Seq<u32> {
        self.visits@
    }

    /// The hound stands, aims and sniffs on carved cells of the maze.
    pub open spec fn fits(&self, maze: Maze) -> bool {
        &&& maze.carved_at(self.spec_pos())
        &&& maze.carved_at(self.spec_target())
        &&& maze.carved_at(self.spec_anchor())
        &&& self.spec_visits().len() == cell_count(maze.spec_extent())
    }

    /// A hound on `pos` aiming at `lead`, following evidence from `turn`,
    /// having visited only `pos`, once.
    pub fn new(maze: &Maze, pos: Coord, lead: Coord, turn: u64) -> (r: Self)
        requires
            maze.wf(),
            maze.carved_at(pos),
            maze.carved_at(lead),
        ensures
            r.fits(*maze),
            r.spec_pos() == pos,
            r.spec_target() == lead,
            r.spec_anchor() == lead,
            r.spec_evidence_turn() == turn,
            r.spec_visits() == Seq::new(cell_count(maze.spec_extent()) as nat, |i: int| 0u32).update(
                cell_index(maze.spec_extent(), pos),
                1u32,
            ),
    {
        let total = maze.cell_total();
        let e = maze.extent();
        proof {
            maze.lemma_wf_extent();
            maze.lemma_carved_in_extent(pos);
            lemma_cell_index(e, pos);
        }
        let mut visits: Vec<u32> = Vec::new();
        let mut t: usize = 0;
        while t < total
            invariant
                t <= total,
                visits@ == Seq::new(t as nat, |i: int| 0u32),
            decreases total - t,
        {
            visits.push(0);
            assert(visits@ =~= Seq::new((t + 1) as nat, |i: int| 0u32));
            t = t + 1;
        }
        let pi = match coord_to_index(e, pos) { Some(v) => v as usize, None => 0 };
        visits.set(pi, 1);
        Self { pos, target: lead, anchor: lead, evidence_turn: turn, visits }
    }

    /// Points the hound at `lead` as the freshest evidence, from `turn`.
    fn set_lead(&mut self, lead: Coord, turn: u64)
        ensures
            final(self).spec_pos() == old(self).spec_pos(),
            final(self).spec_target() == lead,
            final(self).spec_anchor() == lead,
            final(self).spec_evidence_turn() == turn,
            final(self).spec_visits() == old(self).spec_visits(),
    {
        self.target = lead;
        self.anchor = lead;
        self.evidence_turn = turn;
    }

    /// Commits the hound's search to `step`.
    fn set_target(&mut self, step: Coord)
        ensures
            final(self).spec_pos() == old(self).spec_pos(),
            final(self).spec_target() == step,
            final(self).spec_anchor() == old(self).spec_anchor(),
            final(self).spec_evidence_turn() == old(self).spec_evidence_turn(),
            final(self).spec_visits() == old(self).spec_visits(),
    {
        self.target = step;
    }

    /// Moves the hound to `next` (cell number `ni`), counts the visit
    /// (saturating), and, when `next` holds blood fresher than its evidence,
    /// follows that trail from there.
    fn step_to(&mut self, next: Coord, ni: usize, blood: &Vec<Option<u64>>)
        requires
            ni < old(self).spec_visits().len(),
            ni < blood@.len(),
        ensures
            final(self).spec_pos() == next,
            final(self).spec_visits() == old(self).spec_visits().update(
                ni as int,
                (if old(self).spec_visits()[ni as int] < u32::MAX { old(self).spec_visits()[ni as int] + 1 } else { u32::MAX as int }) as u32,
            ),
            fresh_blood(blood@[ni as int], old(self).spec_evidence_turn()) ==> (final(self).spec_target() == next
                && final(self).spec_anchor() == next && final(self).spec_evidence_turn() == blood@[ni as int].unwrap()),
            !fresh_blood(blood@[ni as int], old(self).spec_evidence_turn()) ==> (final(self).spec_target()
                == old(self).spec_target() && final(self).spec_anchor() == old(self).spec_anchor()
                && final(self).spec_evidence_turn() == old(self).spec_evidence_turn()),
    {
        self.pos = next;
        let v = self.visits[ni];
        self.visits.set(ni, v.saturating_add(1));
        match blood[ni] {
            Some(age) => {
                if age > self.evidence_turn {
                    self.target = next;
                    self.anchor = next;
                    self.evidence_turn = age;
                }
            },
            None => {},
        }
    }

    /// Where the hound is.
    pub fn pos(&self) -> (r: Coord)
        ensures
            r == self.spec_pos(),
    {
        self.pos
    }

    /// The cell it walks toward.
    pub fn target(&self) -> (r: Coord)
        ensures
            r == self.spec_target(),
    {
        self.target
    }
}

/// Result of a player's attempted move in bloodhound mode.
#[derive(Debug, Clone, Copy, PartialEq, Eq, Structural)]
pub enum MoveOutcome {
    /// Wall or invalid key: no turn was taken.
    Blocked,
    /// Moved into an empty cell.
    Moved,
    /// Moved onto the goal: level cleared.
    ReachedGoal,
    /// Walked straight into a bloodhound: the player is killed.
    IntoBloodhound,
}

/// Some hound stands on `c`.
pub open spec fn hound_on(hounds: Seq<Bloodhound>, c: Coord) -> bool {
    exists|i: int| 0 <= i < hounds.len() && (#[trigger] hounds[i]).spec_pos() == c
}

/// Some hound is one open passage away from `c`.
pub open spec fn hound_can_lunge(maze: Maze, hounds: Seq<Bloodhound>, c: Coord) -> bool {
    exists|i: int| 0 <= i < hounds.len() && maze.links((#[trigger] hounds[i]).spec_pos()).contains(c)
}

/// Number of the first `n` cells of `cells` that hold a spike.
pub open spec fn count_spiked(e: Extent, spikes: Seq<bool>, cells: Seq<Coord>, n: int) -> nat
    decreases n,
{
    if n <= 0 {
        0
    } else {
        count_spiked(e, spikes, cells, n - 1) + if spikes[cell_index(e, cells[n - 1])] { 1nat } else { 0nat }
    }
}

/// Flags, by cell number, of the cells of the box that are listed.
fn flags_from(e: Extent, list: &Vec<Coord>) -> (r: Vec<bool>)
    requires
        extent_ok(e),
    ensures
        r@.len() == cell_count(e),
        forall|c: Coord| in_extent(e, c) ==> r@[#[trigger] cell_index(e, c)] == list@.contains(c),
{
    proof {
        assert(e.0 * e.1 * e.2 >= 1) by (nonlinear_arith)
            requires e.0 >= 1, e.1 >= 1, e.2 >= 1;
        assert(e.0 * e.1 <= e.0 * e.1 * e.2) by (nonlinear_arith)
            requires e.2 >= 1;
    }
    let total = (e.0 * e.1 * e.2) as usize;
    let mut flags: Vec<bool> = Vec::new();
    let mut t: usize = 0;
    while t < total
        invariant
            t <= total,
            flags@ == Seq::new(t as nat, |i: int| false),
        decreases total - t,
    {
        flags.push(false);
        assert(flags@ =~= Seq::new((t + 1) as nat, |i: int| false));
        t = t + 1;
    }
    proof {
        assert forall|c: Coord| in_extent(e, c) implies flags@[#[trigger] cell_index(e, c)] == list@.subrange(0, 0).contains(c) by {
            lemma_cell_index(e, c);
        }
    }
    let mut k: usize = 0;
    while k < list.len()
        invariant
            extent_ok(e),
            total as int == cell_count(e),
            flags@.len() == total,
            k <= list@.len(),
            forall|c: Coord| in_extent(e, c) ==> flags@[#[trigger] cell_index(e, c)] == list@.subrange(0, k as int).contains(c),
        decreases list@.len() - k,
    {
        let c = list[k];
        let ghost before = flags@;
        match coord_to_index(e, c) {
            Some(ci) => {
                proof { lemma_cell_index(e, c); }
                flags.set(ci as usize, true);
            },
            None => {},
        }
        proof {
            assert forall|d: Coord| in_extent(e, d) implies flags@[#[trigger] cell_index(e, d)] == list@.subrange(0, k + 1).contains(d) by {
                lemma_cell_index(e, d);
                let sub = list@.subrange(0, k as int);
                let sub1 = list@.subrange(0, k + 1);
                assert(sub1 == sub.push(c));
                if d == c {
                    assert(sub1[k as int] == d);
                } else {
                    if in_extent(e, c) {
                        lemma_cell_index(e, c);
                        assert(cell_index(e, d) != cell_index(e, c));
                    }
                    if sub1.contains(d) {
                        let j = choose|j: int| 0 <= j < sub1.len() && sub1[j] == d;
                        assert(sub[j] == d);
                    }
                    if sub.contains(d) {
                        let j = choose|j: int| 0 <= j < sub.len() && sub[j] == d;
                        assert(sub1[j] == d);
                    }
                }
            }
        }
        k = k + 1;
    }
    proof {
        assert(list@.subrange(0, list@.len() as int) =~= list@);
    }
    flags
}

/// The search step among the first `n` passage ends: the end visited least
/// often, ties broken toward the scent (smaller rounded distance to
/// `anchor`), further ties by passage order. Gives (visits, distance, cell).
pub open spec fn search_best(e: Extent, links: Seq<Coord>, visits: Seq<u32>, anchor: Coord, n: int) -> Option<(u32, int, Coord)>
    decreases n,
{
    if n <= 0 {
        None
    } else {
        let b = search_best(e, links, visits, anchor, n - 1);
        let nb = links[n - 1];
        let v = visits[cell_index(e, nb)];
        let t = isqrt(dist_sq_spec(nb, anchor));
        match b {
            None => Some((v, t, nb)),
            Some(best) => if v < best.0 || (v == best.0 && t < best.1) { Some((v, t, nb)) } else { b },
        }
    }
}

/// Where a searching hound steps: the best passage end, or its own cell when it has none.
pub open spec fn search_target(maze: Maze, h: Bloodhound) -> Coord {
    let links = maze.links(h.spec_pos());
    match search_best(maze.spec_extent(), links, h.spec_visits(), h.spec_anchor(), links.len() as int) {
        Some(best) => best.2,
        None => h.spec_pos(),
    }
}

/// A visit count one higher, stopping at `u32::MAX`.
pub open spec fn count_up(v: u32) -> u32 {
    (if v < u32::MAX { v + 1 } else { u32::MAX as int }) as u32
}

/// One hound's turn, from `before` to `after`, in `maze` with the blood
/// trail `blood`. A hound that stands on its target, or whose target no
/// walk reaches, takes the search step; otherwise it steps through a passage
/// onto a cell from which a walk with no repeated cell leads to its target
/// without passing its old cell (the rest of the A* walk, which repeats no
/// cell). A searching hound on its target aims at its search step. It
/// counts the visit of its new cell and, on blood fresher than its evidence
/// there, follows that trail from there.
pub open spec fn hound_moved(maze: Maze, blood: Seq<Option<u64>>, before: Bloodhound, after: Bloodhound) -> bool {
    let pos = before.spec_pos();
    let tgt = before.spec_target();
    let next = after.spec_pos();
    let ni = cell_index(maze.spec_extent(), next);
    let searching = pos == tgt || !(exists|p: Seq<Coord>| #[trigger] walk_between(maze, pos, tgt, p));
    let aim = if pos == tgt { next } else { tgt };
    &&& searching ==> next == search_target(maze, before)
    &&& !searching ==> maze.links(pos).contains(next) && exists|p: Seq<Coord>|
        #[trigger] walk_between(maze, next, tgt, p) && p.no_duplicates() && !p.contains(pos)
    &&& after.spec_visits() == before.spec_visits().update(ni, count_up(before.spec_visits()[ni]))
    &&& fresh_blood(blood[ni], before.spec_evidence_turn()) ==> (after.spec_target() == next && after.spec_anchor()
        == next && after.spec_evidence_turn() == blood[ni].unwrap())
    &&& !fresh_blood(blood[ni], before.spec_evidence_turn()) ==> (after.spec_target() == aim && after.spec_anchor()
        == before.spec_anchor() && after.spec_evidence_turn() == before.spec_evidence_turn())
}

/// The search step is a passage end, or the hound's own cell when it has none.
pub proof fn lemma_search_target(maze: Maze, h: Bloodhound)
    ensures
        maze.links(h.spec_pos()).len() > 0 ==> maze.links(h.spec_pos()).contains(search_target(maze, h)),
        maze.links(h.spec_pos()).len() == 0 ==> search_target(maze, h) == h.spec_pos(),
{
    let links = maze.links(h.spec_pos());
    lemma_search_best_in(maze.spec_extent(), links, h.spec_visits(), h.spec_anchor(), links.len() as int);
}

proof fn lemma_search_best_in(e: Extent, links: Seq<Coord>, visits: Seq<u32>, anchor: Coord, n: int)
    requires
        0 <= n <= links.len(),
    ensures
        n > 0 ==> (search_best(e, links, visits, anchor, n) matches Some(best) && links.subrange(0, n).contains(best.2)),
        n <= 0 ==> search_best(e, links, visits, anchor, n) is None,
    decreases n,
{
    if n > 0 {
        lemma_search_best_in(e, links, visits, anchor, n - 1);
        let best = search_best(e, links, visits, anchor, n)->0;
        if best.2 == links[n - 1] {
            assert(links.subrange(0, n)[n - 1] == links[n - 1]);
        } else {
            let prev = search_best(e, links, visits, anchor, n - 1)->0;
            let sub = links.subrange(0, n - 1);
            let j = choose|j: int| 0 <= j < sub.len() && #[trigger] sub[j] == prev.2;
            assert(links.subrange(0, n)[j] == prev.2);
        }
    }
    if n == links.len() {
        assert(links.subrange(0, n) =~= links);
    }
}

/// A game in the bloodhound survival mode.
pub struct BloodhoundGame {
    maze: Maze,
    current_pos: Coord,
    turn: u64,
    spikes: Vec<bool>,
    blood: Vec<Option<u64>>,
    hounds: Vec<Bloodhound>,
    bleed_turns_remaining: u8,
    move_history: Vec<Coord>,
    visited: Vec<bool>,
    visited_count: usize,
    level: u32,
    hints_used: u32,
    screams: u32,
}

/// The hounds' step of a game, from `g0` to `g1`: each hound moves as
/// [`hound_moved`] says, over the maze and blood trail of `g0`, and nothing
/// else of the game changes.
pub open spec fn hounds_stepped(g0: BloodhoundGame, g1: BloodhoundGame) -> bool {
    &&& g1.spec_hounds().len() == g0.spec_hounds().len()
    &&& forall|i: int|
        0 <= i < g0.spec_hounds().len() ==> hound_moved(
            g0.spec_maze(),
            g0.spec_blood(),
            #[trigger] g0.spec_hounds()[i],
            g1.spec_hounds()[i],
        )
    &&& g1.spec_pos() == g0.spec_pos()
    &&& g1.spec_maze() == g0.spec_maze()
    &&& g1.spec_turn() == g0.spec_turn()
    &&& g1.spec_history() == g0.spec_history()
    &&& g1.spec_visited() == g0.spec_visited()
    &&& g1.spec_spikes() == g0.spec_spikes()
    &&& g1.spec_blood() == g0.spec_blood()
    &&& g1.spec_bleed() == g0.spec_bleed()
    &&& g1.spec_screams() == g0.spec_screams()
    &&& g1.spec_level() == g0.spec_level()
    &&& g1.spec_hints() == g0.spec_hints()
}

impl BloodhoundGame {
    pub closed spec fn spec_maze(&self) -> Maze {
        self.maze
    }

    pub closed spec fn spec_pos(&self) -> Coord {
        self.current_pos
    }

    pub closed spec fn spec_turn(&self) -> u64 {
        self.turn
    }

    /// Spike flags, by cell number.
    pub closed spec fn spec_spikes(&self) -> Seq<bool> {
        self.spikes@
    }

    /// Turn at which blood was left on each cell, by cell number.
    pub closed spec fn spec_blood(&self) -> Seq<Option<u64>> {
        self.blood@
    }

    pub closed spec fn spec_hounds(&self) -> Seq<Bloodhound> {
        self.hounds@
    }

    pub closed spec fn spec_bleed(&self) -> u8 {
        self.bleed_turns_remaining
    }

    pub closed spec fn spec_history(&self) -> Seq<Coord> {
        self.move_history@
    }

    pub closed spec fn spec_visited(&self) -> Seq<bool> {
        self.visited@
    }

    pub closed spec fn spec_level(&self) -> u32 {
        self.level
    }

    pub closed spec fn spec_hints(&self) -> u32 {
        self.hints_used
    }

    pub closed spec fn spec_screams(&self) -> u32 {
        self.screams
    }

    /// The game is consistent: the player's walk starts at the maze's start,
    /// follows passages, has one cell per turn and ends where the player
    /// is; every hound stands on carved cells; the per-cell tables cover the box.
    pub closed spec fn wf(&self) -> bool {
        let e = self.maze.spec_extent();
        &&& self.maze.wf()
        &&& self.move_history@.len() >= 1
        &&& self.move_history@[0] == self.maze.spec_start()
        &&& self.move_history@.last() == self.current_pos
        &&& is_walk(self.maze, self.move_history@)
        &&& self.turn == self.move_history@.len() - 1
        &&& self.maze.carved_at(self.current_pos)
        &&& self.visited@.len() == cell_count(e)
        &&& self.visited_count == count_true(self.visited@)
        &&& self.visited@[cell_index(e, self.current_pos)]
        &&& self.spikes@.len() == cell_count(e)
        &&& self.blood@.len() == cell_count(e)
        &&& forall|i: int| 0 <= i < self.hounds@.len() ==> (#[trigger] self.hounds@[i]).fits(self.maze)
        &&& self.bleed_turns_remaining <= 3
    }

    /// A new game at the maze's start, with the listed spike cells, no
    /// hounds, no blood, and only the start visited.
    pub fn new(maze: Maze, spikes: Vec<Coord>, level: u32) -> (r: Self)
        requires
            maze.wf(),
        ensures
            r.wf(),
            r.spec_maze() == maze,
            r.spec_pos() == maze.spec_start(),
            r.spec_turn() == 0,
            r.spec_hounds().len() == 0,
            r.spec_bleed() == 0,
            r.spec_screams() == 0,
            r.spec_level() == level,
            r.spec_hints() == 0,
            forall|c: Coord| in_extent(maze.spec_extent(), c) ==> r.spec_spikes()[#[trigger] cell_index(maze.spec_extent(), c)] == spikes@.contains(c),
            forall|i: int| 0 <= i < r.spec_blood().len() ==> r.spec_blood()[i] is None,
    {
        let e = maze.extent();
        let start = maze.start();
        let total = maze.cell_total();
        proof {
            maze.lemma_wf_extent();
            maze.lemma_start_carved();
            lemma_cell_index(e, start);
        }
        let spike_flags = flags_from(e, &spikes);
        let mut visited: Vec<bool> = Vec::new();
        let mut blood: Vec<Option<u64>> = Vec::new();
        let mut t: usize = 0;
        while t < total
            invariant
                t <= total,
                visited@ == Seq::new(t as nat, |i: int| false),
                blood@ == Seq::new(t as nat, |i: int| None::<u64>),
            decreases total - t,
        {
            visited.push(false);
            blood.push(None);
            assert(visited@ =~= Seq::new((t + 1) as nat, |i: int| false));
            assert(blood@ =~= Seq::new((t + 1) as nat, |i: int| None::<u64>));
            t = t + 1;
        }
        let si = match coord_to_index(e, start) { Some(v) => v as usize, None => 0 };
        proof {
            crate::game::maze::lemma_count_true_zero(visited@);
            crate::game::maze::lemma_count_true_set(visited@, si as int);
        }
        visited.set(si, true);
        let mut move_history: Vec<Coord> = Vec::new();
        move_history.push(start);
        Self {
            maze,
            current_pos: start,
            turn: 0,
            spikes: spike_flags,
            blood,
            hounds: Vec::new(),
            bleed_turns_remaining: 0,
            move_history,
            visited,
            visited_count: 1,
            level,
            hints_used: 0,
            screams: 0,
        }
    }

    /// Releases a hound into the maze.
    pub fn add_hound(&mut self, hound: Bloodhound)
        requires
            old(self).wf(),
            hound.fits(old(self).spec_maze()),
        ensures
            final(self).wf(),
            final(self).spec_hounds() == old(self).spec_hounds().push(hound),
            final(self).spec_pos() == old(self).spec_pos(),
            final(self).spec_maze() == old(self).spec_maze(),
    {
        self.hounds.push(hound);
        proof {
            assert forall|i: int| 0 <= i < self.hounds@.len() implies (#[trigger] self.hounds@[i]).fits(self.maze) by {
                if i < self.hounds@.len() - 1 {
                    assert(self.hounds@[i] == old(self).hounds@[i]);
                }
            }
        }
    }

    /// Whether a hound stands on `c`.
    pub fn hound_at(&self, c: Coord) -> (r: bool)
        ensures
            r == hound_on(self.spec_hounds(), c),
    {
        let mut i: usize = 0;
        while i < self.hounds.len()
            invariant
                i <= self.hounds@.len(),
                forall|j: int| 0 <= j < i ==> (#[trigger] self.hounds@[j]).spec_pos() != c,
            decreases self.hounds@.len() - i,
        {
            if same_coord(self.hounds[i].pos(), c) {
                return true;
            }
            i = i + 1;
        }
        false
    }

    /// Number of cells reached by an open passage from the player that hold a spike.
    pub fn spike_detector_count(&self) -> (r: usize)
        requires
            self.wf(),
        ensures
            r == count_spiked(
                self.spec_maze().spec_extent(),
                self.spec_spikes(),
                self.spec_maze().links(self.spec_pos()),
                self.spec_maze().links(self.spec_pos()).len() as int,
            ),
    {
        let e = self.maze.extent();
        let nbs = self.maze.get_connected_neighbors(self.current_pos);
        let mut count: usize = 0;
        let mut k: usize = 0;
        while k < nbs.len()
            invariant
                self.wf(),
                e == self.maze.spec_extent(),
                nbs@ == self.maze.links(self.current_pos),
                k <= nbs@.len(),
                count == count_spiked(e, self.spikes@, nbs@, k as int),
                count <= k,
            decreases nbs@.len() - k,
        {
            let n = nbs[k];
            proof {
                self.maze.lemma_wf_extent();
                assert(nbs@[k as int] == n);
                self.maze.lemma_passages(self.current_pos, n);
                lemma_cell_index(e, n);
            }
            let ni = match coord_to_index(e, n) { Some(v) => v as usize, None => 0 };
            if self.spikes[ni] {
                count = count + 1;
            }
            k = k + 1;
        }
        count
    }

    /// Whether a hound stands on the player.
    pub fn is_caught(&self) -> (r: bool)
        ensures
            r == hound_on(self.spec_hounds(), self.spec_pos()),
    {
        self.hound_at(self.current_pos)
    }

    /// Whether a hound is one open cell from the player (it could step onto the player).
    pub fn any_hound_can_lunge(&self) -> (r: bool)
        requires
            self.wf(),
        ensures
            r == hound_can_lunge(self.spec_maze(), self.spec_hounds(), self.spec_pos()),
    {
        let mut i: usize = 0;
        while i < self.hounds.len()
            invariant
                self.wf(),
                i <= self.hounds@.len(),
                forall|j: int| 0 <= j < i ==> !self.maze.links((#[trigger] self.hounds@[j]).spec_pos()).contains(self.current_pos),
            decreases self.hounds@.len() - i,
        {
            if self.maze.are_connected(self.hounds[i].pos(), self.current_pos) {
                return true;
            }
            i = i + 1;
        }
        false
    }

    /// Whether the player has a legal move: an open neighbour without a hound.
    pub fn has_available_move(&self) -> (r: bool)
        requires
            self.wf(),
        ensures
            r == exists|k: int| 0 <= k < self.spec_maze().links(self.spec_pos()).len() && !hound_on(
                self.spec_hounds(),
                #[trigger] self.spec_maze().links(self.spec_pos())[k],
            ),
    {
        let nbs = self.maze.get_connected_neighbors(self.current_pos);
        let mut k: usize = 0;
        while k < nbs.len()
            invariant
                nbs@ == self.maze.links(self.current_pos),
                k <= nbs@.len(),
                forall|j: int| 0 <= j < k ==> hound_on(self.hounds@, #[trigger] nbs@[j]),
            decreases nbs@.len() - k,
        {
            if !self.hound_at(nbs[k]) {
                proof {
                    assert(self.spec_maze().links(self.spec_pos())[k as int] == nbs@[k as int]);
                }
                return true;
            }
            k = k + 1;
        }
        false
    }

    /// Stepping on a spike: the scream is counted (saturating), a hound is
    /// released near the far corner, every hound learns where the player is,
    /// and the player bleeds for 3 turns, starting with blood here.
    pub fn trigger_scream(&mut self)
        requires
            old(self).wf(),
        ensures
            final(self).wf(),
            final(self).spec_screams() == (if old(self).spec_screams() < u32::MAX { old(self).spec_screams() + 1 } else { old(self).spec_screams() as int }),
            final(self).spec_hounds().len() == old(self).spec_hounds().len() + 1,
            forall|i: int| 0 <= i < old(self).spec_hounds().len() ==> (#[trigger] final(self).spec_hounds()[i]).spec_pos()
                == old(self).spec_hounds()[i].spec_pos(),
            final(self).spec_maze().carved_at(final(self).spec_hounds().last().spec_pos()),
            corner_spawn(old(self).spec_maze(), old(self).spec_pos(), final(self).spec_hounds().last().spec_pos()),
            forall|i: int| 0 <= i < final(self).spec_hounds().len() ==> {
                let h = #[trigger] final(self).spec_hounds()[i];
                &&& h.spec_target() == old(self).spec_pos()
                &&& h.spec_anchor() == old(self).spec_pos()
                &&& h.spec_evidence_turn() == old(self).spec_turn()
            },
            final(self).spec_bleed() == 3,
            final(self).spec_blood() == old(self).spec_blood().update(
                cell_index(old(self).spec_maze().spec_extent(), old(self).spec_pos()),
                Some(old(self).spec_turn()),
            ),
            final(self).spec_pos() == old(self).spec_pos(),
            final(self).spec_maze() == old(self).spec_maze(),
            final(self).spec_turn() == old(self).spec_turn(),
            final(self).spec_history() == old(self).spec_history(),
            final(self).spec_visited() == old(self).spec_visited(),
            final(self).spec_spikes() == old(self).spec_spikes(),
            final(self).spec_level() == old(self).spec_level(),
            final(self).spec_hints() == old(self).spec_hints(),
    {
        self.screams = self.screams.saturating_add(1);
        proof {
            self.maze.lemma_carved_in_extent(self.current_pos);
        }
        let spawn = furthest_corner_spawn(&self.maze, self.current_pos);
        let hound = Bloodhound::new(&self.maze, spawn, self.current_pos, self.turn);
        let mut hs: Vec<Bloodhound> = Vec::new();
        std::mem::swap(&mut hs, &mut self.hounds);
        hs.push(hound);
        let ghost h_before = hs@;
        let n = hs.len();
        let mut i: usize = 0;
        while i < n
            invariant
                n == hs@.len(),
                n == h_before.len(),
                i <= n,
                forall|j: int| 0 <= j < n ==> (#[trigger] hs@[j]).spec_pos() == h_before[j].spec_pos(),
                forall|j: int| 0 <= j < n ==> (#[trigger] hs@[j]).spec_visits() == h_before[j].spec_visits(),
                forall|j: int| 0 <= j < i ==> {
                    let h = #[trigger] hs@[j];
                    &&& h.spec_target() == self.current_pos
                    &&& h.spec_anchor() == self.current_pos
                    &&& h.spec_evidence_turn() == self.turn
                },
                forall|j: int| i <= j < n ==> #[trigger] hs@[j] == h_before[j],
            decreases n - i,
        {
            hs[i].set_lead(self.current_pos, self.turn);
            i = i + 1;
        }
        std::mem::swap(&mut hs, &mut self.hounds);
        self.bleed_turns_remaining = 3;
        let e = self.maze.extent();
        proof {
            self.maze.lemma_wf_extent();
            lemma_cell_index(e, self.current_pos);
        }
        let ci = match coord_to_index(e, self.current_pos) { Some(v) => v as usize, None => 0 };
        self.blood.set(ci, Some(self.turn));
        proof {
            assert forall|j: int| 0 <= j < self.hounds@.len() implies (#[trigger] self.hounds@[j]).fits(self.maze) by {
                if j < old(self).hounds@.len() {
                    assert(h_before[j] == old(self).hounds@[j]);
                    assert(old(self).hounds@[j].fits(self.maze));
                } else {
                    assert(h_before[j] == hound);
                }
            }
        }
    }

    /// Tries to move the player one step in the direction of `key`. A key that
    /// is no direction, or a wall, is `Blocked` and nothing changes; a step
    /// onto a hound is `IntoBloodhound` and nothing changes. Otherwise the
    /// player moves (one turn passes), leaves blood while bleeding, screams on
    /// a spike, and the outcome says whether the goal is reached.
    pub fn make_move(&mut self, key: char) -> (r: MoveOutcome)
        requires
            old(self).wf(),
        ensures
            final(self).wf(),
            final(self).spec_maze() == old(self).spec_maze(),
            final(self).spec_spikes() == old(self).spec_spikes(),
            key_delta(key) is None ==> r == MoveOutcome::Blocked && *final(self) == *old(self),
            key_delta(key) matches Some(d) ==> {
                let next = add_coord(old(self).spec_pos(), d);
                let e = old(self).spec_maze().spec_extent();
                if !old(self).spec_maze().links(old(self).spec_pos()).contains(next) {
                    r == MoveOutcome::Blocked && *final(self) == *old(self)
                } else if hound_on(old(self).spec_hounds(), next) {
                    r == MoveOutcome::IntoBloodhound && *final(self) == *old(self)
                } else {
                    let spiked = old(self).spec_spikes()[cell_index(e, next)];
                    &&& r == (if next == old(self).spec_maze().spec_goal() { MoveOutcome::ReachedGoal } else { MoveOutcome::Moved })
                    &&& final(self).spec_pos() == next
                    &&& final(self).spec_turn() == old(self).spec_turn() + 1
                    &&& final(self).spec_history() == old(self).spec_history().push(next)
                    &&& final(self).spec_visited() == old(self).spec_visited().update(cell_index(e, next), true)
                    &&& final(self).spec_hounds().len() == old(self).spec_hounds().len() + (if spiked { 1int } else { 0int })
                    &&& final(self).spec_bleed() == (if spiked { 3int } else if old(self).spec_bleed() > 0 { old(self).spec_bleed() - 1 } else { 0int })
                    &&& (spiked || old(self).spec_bleed() > 0) ==> final(self).spec_blood() == old(self).spec_blood().update(cell_index(e, next), Some(final(self).spec_turn()))
                    &&& !(spiked || old(self).spec_bleed() > 0) ==> final(self).spec_blood() == old(self).spec_blood()
                    &&& spiked ==> forall|i: int| 0 <= i < final(self).spec_hounds().len() ==> (#[trigger] final(self).spec_hounds()[i]).spec_target() == next
                    &&& spiked ==> corner_spawn(old(self).spec_maze(), next, final(self).spec_hounds().last().spec_pos())
                    &&& !spiked ==> final(self).spec_hounds() == old(self).spec_hounds()
                }
            },
    {
        let e = self.maze.extent();
        proof {
            self.maze.lemma_wf_extent();
            self.maze.lemma_carved_in_extent(self.current_pos);
        }
        let next_pos = match target_of(self.current_pos, key) {
            Some(p) => p,
            None => {
                return MoveOutcome::Blocked;
            },
        };
        if !self.maze.are_connected(self.current_pos, next_pos) {
            return MoveOutcome::Blocked;
        }
        if self.hound_at(next_pos) {
            return MoveOutcome::IntoBloodhound;
        }
        proof {
            self.maze.lemma_passages(self.current_pos, next_pos);
            lemma_cell_index(e, next_pos);
        }
        let ghost hist_b = self.move_history@;
        let ghost pos_b = self.current_pos;
        let hist_len = self.move_history.len();
        proof {
            assert(hist_len as int == self.move_history@.len());
            assert(self.turn < u64::MAX);
        }
        self.current_pos = next_pos;
        self.turn = self.turn + 1;
        self.move_history.push(next_pos);
        let ni = match coord_to_index(e, next_pos) { Some(v) => v as usize, None => 0 };
        if !self.visited[ni] {
            proof { crate::game::maze::lemma_count_true_set(self.visited@, ni as int); }
            self.visited.set(ni, true);
            self.visited_count = self.visited_count + 1;
        }
        proof {
            assert forall|i: int| #![trigger self.move_history@[i]] 0 <= i < self.move_history@.len() - 1 implies self.maze.links(
                self.move_history@[i],
            ).contains(self.move_history@[i + 1]) by {
                if i < hist_b.len() - 1 {
                    assert(self.move_history@[i] == hist_b[i] && self.move_history@[i + 1] == hist_b[i + 1]);
                } else {
                    assert(self.move_history@[i] == pos_b);
                }
            }
        }
        if self.bleed_turns_remaining > 0 {
            self.blood.set(ni, Some(self.turn));
            self.bleed_turns_remaining = self.bleed_turns_remaining - 1;
        }
        if self.spikes[ni] {
            self.trigger_scream();
        }
        if same_coord(self.current_pos, self.maze.goal()) {
            MoveOutcome::ReachedGoal
        } else {
            MoveOutcome::Moved
        }
    }

    /// The step a searching hound `i` takes: the passage end it has visited
    /// least, ties broken toward its scent; its own cell when it has none.
    pub fn search_step(&self, i: usize) -> (r: Coord)
        requires
            self.wf(),
            i < self.spec_hounds().len(),
        ensures
            r == search_target(self.spec_maze(), self.spec_hounds()[i as int]),
    {
        let h = &self.hounds[i];
        let e = self.maze.extent();
        proof {
            self.maze.lemma_wf_extent();
            assert(self.hounds@[i as int].fits(self.maze));
            self.maze.lemma_carved_in_extent(h.anchor);
        }
        let nbs = self.maze.get_connected_neighbors(h.pos);
        let mut best: Option<(u32, u32, Coord)> = None;
        let mut k: usize = 0;
        while k < nbs.len()
            invariant
                self.wf(),
                e == self.maze.spec_extent(),
                extent_ok(e),
                *h == self.hounds@[i as int],
                h.fits(self.maze),
                in_extent(e, h.anchor),
                nbs@ == self.maze.links(h.pos),
                k <= nbs@.len(),
                best matches Some(b) ==> search_best(e, nbs@, h.visits@, h.anchor, k as int) == Some((b.0, b.1 as int, b.2)),
                best is None ==> search_best(e, nbs@, h.visits@, h.anchor, k as int) is None,
            decreases nbs@.len() - k,
        {
            let nb = nbs[k];
            proof {
                assert(nbs@[k as int] == nb);
                self.maze.lemma_passages(h.pos, nb);
                lemma_cell_index(e, nb);
            }
            let ni = match coord_to_index(e, nb) { Some(v) => v as usize, None => 0 };
            let visit_count = h.visits[ni];
            let toward_scent = heuristic(nb, h.anchor);
            let better = match best {
                None => true,
                Some((bv, bt, _)) => visit_count < bv || (visit_count == bv && toward_scent < bt),
            };
            if better {
                best = Some((visit_count, toward_scent, nb));
            }
            k = k + 1;
        }
        match best {
            Some((_, _, c)) => c,
            None => h.pos,
        }
    }

    /// Moves every hound one cell: along the A* walk toward its target while
    /// it has not reached it, and otherwise a search step that becomes its new
    /// target. A hound counts the visit and, on blood fresher than its
    /// evidence, follows that trail. Each hound steps through a passage of
    /// its cell, and stays only when its cell has none.
    pub fn move_bloodhounds(&mut self)
        requires
            old(self).wf(),
        ensures
            final(self).wf(),
            hounds_stepped(*old(self), *final(self)),
    {
        let e = self.maze.extent();
        proof { self.maze.lemma_wf_extent(); }
        let n = self.hounds.len();
        let ghost h_start = self.hounds@;
        let mut i: usize = 0;
        while i < n
            invariant
                self.wf(),
                e == self.maze.spec_extent(),
                extent_ok(e),
                n == self.hounds@.len(),
                n == h_start.len(),
                i <= n,
                self.maze == old(self).maze,
                self.current_pos == old(self).current_pos,
                self.turn == old(self).turn,
                self.move_history == old(self).move_history,
                self.visited == old(self).visited,
                self.visited_count == old(self).visited_count,
                self.spikes == old(self).spikes,
                self.blood == old(self).blood,
                self.bleed_turns_remaining == old(self).bleed_turns_remaining,
                self.screams == old(self).screams,
                self.level == old(self).level,
                self.hints_used == old(self).hints_used,
                h_start == old(self).hounds@,
                forall|j: int| i <= j < n ==> #[trigger] self.hounds@[j] == h_start[j],
                forall|j: int| 0 <= j < i ==> hound_moved(self.maze, self.blood@, #[trigger] h_start[j], self.hounds@[j]),
            decreases n - i,
        {
            let pos = self.hounds[i].pos();
            let tgt = self.hounds[i].target();
            let ghost before = h_start[i as int];
            let ghost mut chased = false;
            let ghost mut wpath: Seq<Coord> = Seq::empty();
            proof {
                assert(self.hounds@[i as int].fits(self.maze));
                self.maze.lemma_carved_in_extent(pos);
                self.maze.lemma_carved_in_extent(tgt);
                lemma_search_target(self.maze, self.hounds@[i as int]);
            }
            let next = if !same_coord(pos, tgt) {
                match astar_pathfind(&self.maze, pos, tgt) {
                    Some((path, _)) => {
                        proof {
                            assert(walk_between(self.maze, pos, tgt, path@));
                        }
                        if path.len() > 1 {
                            proof {
                                assert(path@[0] == pos);
                                assert(self.maze.links(path@[0]).contains(path@[1]));
                                chased = true;
                                wpath = path@.subrange(1, path@.len() as int);
                                assert forall|k: int| #![trigger wpath[k]] 0 <= k < wpath.len() - 1 implies self.maze.links(
                                    wpath[k],
                                ).contains(wpath[k + 1]) by {
                                    assert(wpath[k] == path@[k + 1]);
                                    assert(wpath[k + 1] == path@[k + 2]);
                                }
                                assert(walk_between(self.maze, path@[1], tgt, wpath));
                                assert(wpath.no_duplicates());
                                assert(!wpath.contains(pos)) by {
                                    if wpath.contains(pos) {
                                        let k = choose|k: int| 0 <= k < wpath.len() && wpath[k] == pos;
                                        assert(path@[k + 1] == path@[0]);
                                    }
                                }
                            }
                            path[1]
                        } else {
                            self.search_step(i)
                        }
                    },
                    None => self.search_step(i),
                }
            } else {
                let step = self.search_step(i);
                let mut hs: Vec<Bloodhound> = Vec::new();
                std::mem::swap(&mut hs, &mut self.hounds);
                hs[i].set_target(step);
                std::mem::swap(&mut hs, &mut self.hounds);
                step
            };
            proof {
                let links = self.maze.links(pos);
                if links.len() > 0 {
                    assert(links.contains(next));
                    self.maze.lemma_passages(pos, next);
                } else {
                    assert(next == pos);
                }
                self.maze.lemma_carved_in_extent(next);
                lemma_cell_index(e, next);
            }
            let ni = match coord_to_index(e, next) { Some(v) => v as usize, None => 0 };
            let mut hs: Vec<Bloodhound> = Vec::new();
            std::mem::swap(&mut hs, &mut self.hounds);
            hs[i].step_to(next, ni, &self.blood);
            std::mem::swap(&mut hs, &mut self.hounds);
            proof {
                assert forall|j: int| 0 <= j < self.hounds@.len() implies (#[trigger] self.hounds@[j]).fits(self.maze) by {
                    if j != i as int {
                        assert(self.hounds@[j] == old(self).hounds@[j] || j < i as int);
                    }
                }
                if chased {
                    assert(walk_between(self.maze, next, tgt, wpath) && wpath.no_duplicates() && !wpath.contains(pos));
                    assert(pos != tgt);
                }
                assert(hound_moved(self.maze, self.blood@, before, self.hounds@[i as int]));
            }
            i = i + 1;
        }
    }

    /// The hounds' turn: a hound on the player, or one open cell away (the
    /// player failed to break contact), catches the player at once; otherwise
    /// every hound moves one cell, and the result says whether one landed on
    /// the player.
    pub fn resolve_hounds(&mut self) -> (r: bool)
        requires
            old(self).wf(),
        ensures
            final(self).wf(),
            final(self).spec_pos() == old(self).spec_pos(),
            final(self).spec_maze() == old(self).spec_maze(),
            (hound_on(old(self).spec_hounds(), old(self).spec_pos()) || hound_can_lunge(
                old(self).spec_maze(),
                old(self).spec_hounds(),
                old(self).spec_pos(),
            )) ==> r && *final(self) == *old(self),
            !(hound_on(old(self).spec_hounds(), old(self).spec_pos()) || hound_can_lunge(
                old(self).spec_maze(),
                old(self).spec_hounds(),
                old(self).spec_pos(),
            )) ==> r == hound_on(final(self).spec_hounds(), final(self).spec_pos()) && hounds_stepped(
                *old(self),
                *final(self),
            ),
    {
        if self.is_caught() || self.any_hound_can_lunge() {
            return true;
        }
        self.move_bloodhounds();
        self.is_caught()
    }

    /// Squared distance from the player to the nearest hound, if any.
    pub fn nearest_hound_dist_sq(&self) -> (r: Option<i64>)
        requires
            self.wf(),
        ensures
            self.spec_hounds().len() == 0 ==> r is None,
            self.spec_hounds().len() > 0 ==> (r matches Some(d) && (exists|i: int| 0 <= i < self.spec_hounds().len() && d == dist_sq_spec(
                (#[trigger] self.spec_hounds()[i]).spec_pos(),
                self.spec_pos(),
            )) && forall|i: int| 0 <= i < self.spec_hounds().len() ==> d <= dist_sq_spec(
                (#[trigger] self.spec_hounds()[i]).spec_pos(),
                self.spec_pos(),
            )),
    {
        proof {
            self.maze.lemma_wf_extent();
            self.maze.lemma_carved_in_extent(self.current_pos);
        }
        let mut best: Option<i64> = None;
        let mut i: usize = 0;
        while i < self.hounds.len()
            invariant
                self.wf(),
                extent_ok(self.maze.spec_extent()),
                in_extent(self.maze.spec_extent(), self.current_pos),
                i <= self.hounds@.len(),
                i == 0 ==> best is None,
                i > 0 ==> (best matches Some(d) && (exists|j: int| 0 <= j < i && d == dist_sq_spec(
                    (#[trigger] self.hounds@[j]).spec_pos(),
                    self.current_pos,
                )) && forall|j: int| 0 <= j < i ==> d <= dist_sq_spec((#[trigger] self.hounds@[j]).spec_pos(), self.current_pos)),
            decreases self.hounds@.len() - i,
        {
            let hp = self.hounds[i].pos();
            proof {
                assert(self.hounds@[i as int].fits(self.maze));
                self.maze.lemma_carved_in_extent(hp);
                lemma_dist_sq_fits(self.maze.spec_extent(), hp, self.current_pos);
            }
            let d = dist_sq(hp, self.current_pos);
            best = match best {
                Some(m) => if m <= d { Some(m) } else { Some(d) },
                None => Some(d),
            };
            i = i + 1;
        }
        best
    }

    /// Where the player is.
    pub fn current_pos(&self) -> (r: Coord)
        ensures
            r == self.spec_pos(),
    {
        self.current_pos
    }

    /// The maze.
    pub fn maze(&self) -> (r: &Maze)
        ensures
            *r == self.spec_maze(),
    {
        &self.maze
    }

    /// The hounds.
    pub fn hounds(&self) -> (r: &Vec<Bloodhound>)
        ensures
            r@ == self.spec_hounds(),
    {
        &self.hounds
    }

    /// Screams so far.
    pub fn screams(&self) -> (r: u32)
        ensures
            r == self.spec_screams(),
    {
        self.screams
    }

    /// Turns of blood trail left.
    pub fn bleed_turns_remaining(&self) -> (r: u8)
        ensures
            r == self.spec_bleed(),
    {
        self.bleed_turns_remaining
    }

    /// Number of moves made.
    pub fn move_count(&self) -> (r: usize)
        requires
            self.wf(),
        ensures
            r == self.spec_history().len() - 1,
    {
        self.move_history.len() - 1
    }

    /// Number of distinct cells visited.
    pub fn visited_count(&self) -> (r: usize)
        requires
            self.wf(),
        ensures
            r == count_true(self.spec_visited()),
    {
        self.visited_count
    }

    /// Whether the player has visited `c`.
    pub fn has_visited(&self, c: Coord) -> (r: bool)
        requires
            self.wf(),
        ensures
            r == (in_extent(self.spec_maze().spec_extent(), c) && self.spec_visited()[cell_index(self.spec_maze().spec_extent(), c)]),
    {
        let e = self.maze.extent();
        proof { self.maze.lemma_wf_extent(); }
        match coord_to_index(e, c) {
            Some(i) => {
                proof { lemma_cell_index(e, c); }
                self.visited[i as usize]
            },
            None => false,
        }
    }

    /// The level number.
    pub fn level(&self) -> (r: u32)
        ensures
            r == self.spec_level(),
    {
        self.level
    }

    /// Hints asked for.
    pub fn hints_used(&self) -> (r: u32)
        ensures
            r == self.spec_hints(),
    {
        self.hints_used
    }

    /// Counts one more hint (saturating).
    pub fn record_hint(&mut self)
        requires
            old(self).wf(),
        ensures
            final(self).wf(),
            final(self).spec_hints() == (if old(self).spec_hints() < u32::MAX { old(self).spec_hints() + 1 } else { old(self).spec_hints() as int }),
            final(self).spec_pos() == old(self).spec_pos(),
            final(self).spec_maze() == old(self).spec_maze(),
            final(self).spec_hounds() == old(self).spec_hounds(),
    {
        self.hints_used = self.hints_used.saturating_add(1);
    }
}

} // verus!
