//! Walks through a maze by A* search, with the straight-line distance as the
//! estimate.

use vstd::prelude::*;
use crate::game::maze::{
    cell_count, cell_index, count_true, extent_ok, in_extent, index_coord, lemma_cell_index, lemma_index_coord,
    same_coord, coord_to_index, Coord, Maze, lemma_count_true_set, lemma_count_true_le, lemma_count_true_zero,
    lemma_count_true_mono,
};

verus! {

/// Squared Euclidean distance between two cells.
pub open spec fn dist_sq_spec(a: Coord, b: Coord) -> int {
    (a.0 - b.0) * (a.0 - b.0) + (a.1 - b.1) * (a.1 - b.1) + (a.2 - b.2) * (a.2 - b.2)
}

/// `r` is the integer square root of `n`: the largest integer whose square is at most `n`.
pub open spec fn is_floor_sqrt(n: int, r: int) -> bool {
    0 <= r && r * r <= n && n < (r + 1) * (r + 1)
}

/// The integer square root of `n >= 0`.
pub open spec fn isqrt(n: int) -> int {
    choose|r: int| is_floor_sqrt(n, r)
}

/// An integer square root is unique, so it is the one [`isqrt`] picks.
pub proof fn lemma_isqrt(n: int, r: int)
    requires
        is_floor_sqrt(n, r),
    ensures
        isqrt(n) == r,
{
    let q = isqrt(n);
    assert(is_floor_sqrt(n, q));
    if q < r {
        assert(false) by (nonlinear_arith)
            requires q < r, 0 <= q, n < (q + 1) * (q + 1), r * r <= n;
    }
    if r < q {
        assert(false) by (nonlinear_arith)
            requires r < q, 0 <= r, n < (r + 1) * (r + 1), q * q <= n;
    }
}

/// The two coordinates differ by less than 2^31 on each axis.
pub open spec fn near(a: Coord, b: Coord) -> bool {
    &&& -0x7FFF_FFFF <= a.0 - b.0 <= 0x7FFF_FFFF
    &&& -0x7FFF_FFFF <= a.1 - b.1 <= 0x7FFF_FFFF
    &&& -0x7FFF_FFFF <= a.2 - b.2 <= 0x7FFF_FFFF
}

/// Integer square root of `n < 2^66`, by bisection.
fn floor_sqrt(n: u128) -> (r: u64)
    requires
        n < 0x4_0000_0000_0000_0000,
    ensures
        is_floor_sqrt(n as int, r as int),
{
    let mut lo: u128 = 0;
    let mut hi: u128 = 0x2_0000_0000;
    assert(hi * hi > n) by (nonlinear_arith)
        requires hi == 0x2_0000_0000, n < 0x4_0000_0000_0000_0000;
    while hi - lo > 1
        invariant
            lo < hi <= 0x2_0000_0000,
            lo * lo <= n,
            n < hi * hi,
        decreases hi - lo,
    {
        let mid = lo + (hi - lo) / 2;
        assert(mid * mid <= 0x4_0000_0000_0000_0000) by (nonlinear_arith)
            requires mid < 0x2_0000_0000;
        if mid * mid <= n {
            lo = mid;
        } else {
            hi = mid;
        }
    }
    assert(lo + 1 == hi);
    lo as u64
}

/// `|a - b|`, which must be below 2^31.
fn abs_diff(a: i32, b: i32) -> (r: u128)
    requires
        -0x7FFF_FFFF <= a - b <= 0x7FFF_FFFF,
    ensures
        r == a - b || r == b - a,
        r < 0x8000_0000,
{
    if a >= b {
        (a as i64 - b as i64) as u128
    } else {
        (b as i64 - a as i64) as u128
    }
}

/// Straight-line distance between two cells, rounded down.
pub fn heuristic(from: Coord, to: Coord) -> (r: u32)
    requires
        near(from, to),
    ensures
        is_floor_sqrt(dist_sq_spec(from, to), r as int),
        r == isqrt(dist_sq_spec(from, to)),
{
    let dx = abs_diff(from.0, to.0);
    let dy = abs_diff(from.1, to.1);
    let dz = abs_diff(from.2, to.2);
    proof {
        let (a, b, c) = ((from.0 - to.0) as int, (from.1 - to.1) as int, (from.2 - to.2) as int);
        assert(dx * dx == a * a && dy * dy == b * b && dz * dz == c * c) by (nonlinear_arith)
            requires (dx == a || dx == -a), (dy == b || dy == -b), (dz == c || dz == -c);
        assert(dx * dx < 0x4000_0000_0000_0000 && dy * dy < 0x4000_0000_0000_0000 && dz * dz
            < 0x4000_0000_0000_0000) by (nonlinear_arith)
            requires dx < 0x8000_0000, dy < 0x8000_0000, dz < 0x8000_0000;
    }
    let d2 = dx * dx + dy * dy + dz * dz;
    let r = floor_sqrt(d2);
    proof {
        assert(r < 0x1_0000_0000) by (nonlinear_arith)
            requires is_floor_sqrt(d2 as int, r as int), d2 < 0xC000_0000_0000_0000;
        lemma_isqrt(dist_sq_spec(from, to), r as int);
    }
    r as u32
}

/// Consecutive cells of the walk are joined by passages of the maze.
pub open spec fn is_walk(maze: Maze, path: Seq<Coord>) -> bool {
    forall|i: int| #![trigger path[i]] 0 <= i < path.len() - 1 ==> maze.links(path[i]).contains(path[i + 1])
}

/// The bookkeeping of an A* search from `start`, by cell number: best known
/// distances, the cell each was reached from, the expanded cells and their
/// number, and the open entries (estimate, cell).
pub open spec fn search_ok(
    maze: Maze,
    start: Coord,
    g: Seq<u32>,
    came: Seq<Option<Coord>>,
    closed: Seq<bool>,
    closed_count: int,
    open: Seq<(u32, Coord)>,
) -> bool {
    let e = maze.spec_extent();
    let n = cell_count(e);
    &&& g.len() == n
    &&& came.len() == n
    &&& closed.len() == n
    &&& closed_count == count_true(closed)
    &&& in_extent(e, start)
    &&& g[cell_index(e, start)] == 0
    &&& came[cell_index(e, start)] is None
    &&& forall|i: int| 0 <= i < n && #[trigger] g[i] != u32::MAX ==> g[i] <= closed_count
    &&& forall|i: int| 0 <= i < n && #[trigger] closed[i] ==> g[i] != u32::MAX
    &&& forall|i: int|
        0 <= i < n && #[trigger] came[i] is Some ==> {
            let p = came[i]->0;
            &&& in_extent(e, p)
            &&& closed[cell_index(e, p)]
            &&& maze.links(p).contains(index_coord(e, i))
            &&& g[i] != u32::MAX
            &&& g[i] == g[cell_index(e, p)] + 1
        }
    &&& forall|i: int| 0 <= i < n && #[trigger] g[i] != u32::MAX && came[i] is None ==> i == cell_index(e, start)
    &&& forall|k: int| 0 <= k < open.len() ==> in_extent(e, (#[trigger] open[k]).1) && g[cell_index(e, open[k].1)] != u32::MAX
}

/// What makes an exhausted search conclusive: every cell found but not yet
/// expanded has an open entry, every expanded cell's passages lead to found
/// cells, and the goal is never expanded.
pub open spec fn frontier_ok(maze: Maze, goal: Coord, g: Seq<u32>, closed: Seq<bool>, open: Seq<(u32, Coord)>) -> bool {
    let e = maze.spec_extent();
    let n = cell_count(e);
    &&& forall|i: int|
        0 <= i < n && #[trigger] g[i] != u32::MAX && !closed[i] ==> exists|k: int|
            0 <= k < open.len() && cell_index(e, (#[trigger] open[k]).1) == i
    &&& forall|i: int, j: int|
        0 <= i < n && #[trigger] closed[i] && 0 <= j < maze.links(index_coord(e, i)).len() ==> g[cell_index(
            e,
            #[trigger] maze.links(index_coord(e, i))[j],
        )] != u32::MAX
    &&& in_extent(e, goal) ==> !closed[cell_index(e, goal)]
}

/// [`frontier_ok`] while cell `c` is being expanded: its first `done`
/// passages have been looked at.
pub open spec fn frontier_during(
    maze: Maze,
    goal: Coord,
    g: Seq<u32>,
    closed: Seq<bool>,
    open: Seq<(u32, Coord)>,
    c: int,
    done: int,
) -> bool {
    let e = maze.spec_extent();
    let n = cell_count(e);
    &&& forall|i: int|
        0 <= i < n && #[trigger] g[i] != u32::MAX && !closed[i] ==> exists|k: int|
            0 <= k < open.len() && cell_index(e, (#[trigger] open[k]).1) == i
    &&& forall|i: int, j: int|
        0 <= i < n && #[trigger] closed[i] && i != c && 0 <= j < maze.links(index_coord(e, i)).len() ==> g[cell_index(
            e,
            #[trigger] maze.links(index_coord(e, i))[j],
        )] != u32::MAX
    &&& forall|j: int| 0 <= j < done ==> g[cell_index(e, #[trigger] maze.links(index_coord(e, c))[j])] != u32::MAX
    &&& in_extent(e, goal) ==> !closed[cell_index(e, goal)]
}

/// Looking at one more passage of the expanded cell keeps [`frontier_during`]
/// when that passage's end is found and nothing found is lost.
proof fn lemma_frontier_step(
    maze: Maze,
    goal: Coord,
    g0: Seq<u32>,
    closed: Seq<bool>,
    open0: Seq<(u32, Coord)>,
    g1: Seq<u32>,
    open1: Seq<(u32, Coord)>,
    c: int,
    m: int,
    ni: int,
)
    requires
        maze.wf(),
        g0.len() == cell_count(maze.spec_extent()),
        frontier_during(maze, goal, g0, closed, open0, c, m),
        0 <= m < maze.links(index_coord(maze.spec_extent(), c)).len(),
        ni == cell_index(maze.spec_extent(), maze.links(index_coord(maze.spec_extent(), c))[m]),
        g1.len() == g0.len(),
        forall|x: int| 0 <= x < g0.len() && x != ni ==> g1[x] == g0[x],
        g1[ni] != u32::MAX,
        open0.len() <= open1.len(),
        forall|k: int| 0 <= k < open0.len() ==> open1[k] == open0[k],
        g0[ni] == u32::MAX && !closed[ni] ==> exists|k: int|
            0 <= k < open1.len() && cell_index(maze.spec_extent(), (#[trigger] open1[k]).1) == ni,
    ensures
        frontier_during(maze, goal, g1, closed, open1, c, m + 1),
{
    let e = maze.spec_extent();
    let n = cell_count(e);
    assert forall|i: int| 0 <= i < n && #[trigger] g1[i] != u32::MAX && !closed[i] implies exists|k: int|
        0 <= k < open1.len() && cell_index(e, (#[trigger] open1[k]).1) == i by {
        if i != ni || g0[ni] != u32::MAX {
            assert(g0[i] != u32::MAX);
            let k = choose|k: int| 0 <= k < open0.len() && cell_index(e, (#[trigger] open0[k]).1) == i;
            assert(open1[k] == open0[k]);
        }
    }
    assert forall|i: int, j: int|
        0 <= i < n && #[trigger] closed[i] && i != c && 0 <= j < maze.links(index_coord(e, i)).len() implies g1[cell_index(
        e,
        #[trigger] maze.links(index_coord(e, i))[j],
    )] != u32::MAX by {
        let y = maze.links(index_coord(e, i))[j];
        maze.lemma_passages(index_coord(e, i), y);
        maze.lemma_wf_extent();
        lemma_cell_index(e, y);
        let x = cell_index(e, y);
        assert(g0[x] != u32::MAX);
    }
    assert forall|j: int| 0 <= j < m + 1 implies g1[cell_index(e, #[trigger] maze.links(index_coord(e, c))[j])] != u32::MAX by {
        if j < m {
            let y = maze.links(index_coord(e, c))[j];
            assert(maze.links(index_coord(e, c)).contains(y));
            maze.lemma_passages(index_coord(e, c), y);
            maze.lemma_wf_extent();
            lemma_cell_index(e, y);
            let x = cell_index(e, y);
            assert(g0[x] != u32::MAX);
        }
    }
}

/// The estimate under which A* files a cell reached in `g` steps: `g` plus
/// the rounded-down straight-line distance to the goal, capped at `u32::MAX`.
pub open spec fn astar_estimate(g: u32, c: Coord, goal: Coord) -> int {
    let s = g + isqrt(dist_sq_spec(c, goal));
    if s > u32::MAX { u32::MAX as int } else { s }
}

/// The open entries carry estimates: every cell found and not yet expanded
/// has an entry under the estimate of its current distance, and no entry is
/// filed below the estimate of its cell's current distance.
pub open spec fn open_estimates(maze: Maze, goal: Coord, g: Seq<u32>, closed: Seq<bool>, open: Seq<(u32, Coord)>) -> bool {
    let e = maze.spec_extent();
    let n = cell_count(e);
    &&& forall|i: int|
        0 <= i < n && #[trigger] g[i] != u32::MAX && !closed[i] ==> open.contains(
            (astar_estimate(g[i], index_coord(e, i), goal) as u32, index_coord(e, i)),
        )
    &&& forall|k: int|
        0 <= k < open.len() ==> (#[trigger] open[k]).0 >= astar_estimate(g[cell_index(e, open[k].1)], open[k].1, goal)
    &&& forall|i: int| 0 <= i < n && #[trigger] g[i] != u32::MAX ==> isqrt(dist_sq_spec(index_coord(e, i), goal)) >= 0
}

/// Where an A* search stood when it took the goal, by cell number: `closed`
/// marks the cells it expanded and `g` the distances it found. Expanded cells
/// were found, and so were the ends of their passages; the start was found at
/// distance 0; the goal was found and not expanded, and the walk has as many
/// moves as the goal's distance; and every cell found but not expanded, other
/// than the goal, is filed under an estimate no smaller than that distance
/// (so the search expands, before it takes the goal, every found cell whose
/// estimate is smaller).
pub open spec fn astar_finished(
    maze: Maze,
    start: Coord,
    goal: Coord,
    closed: Seq<bool>,
    g: Seq<u32>,
    path: Seq<Coord>,
) -> bool {
    let e = maze.spec_extent();
    let n = cell_count(e);
    let gi = cell_index(e, goal);
    &&& closed.len() == n
    &&& g.len() == n
    &&& in_extent(e, start)
    &&& g[cell_index(e, start)] == 0
    &&& in_extent(e, goal)
    &&& !closed[gi]
    &&& g[gi] != u32::MAX
    &&& path.len() == g[gi] + 1
    &&& forall|i: int| 0 <= i < n && #[trigger] closed[i] ==> g[i] != u32::MAX
    &&& forall|i: int, j: int|
        0 <= i < n && #[trigger] closed[i] && 0 <= j < maze.links(index_coord(e, i)).len() ==> g[cell_index(
            e,
            #[trigger] maze.links(index_coord(e, i))[j],
        )] != u32::MAX
    &&& forall|i: int|
        0 <= i < n && #[trigger] g[i] != u32::MAX && !closed[i] && i != gi ==> astar_estimate(
            g[i],
            index_coord(e, i),
            goal,
        ) >= g[gi]
}

/// `explored` counts the cells an A* search expanded before it took the goal,
/// plus the goal, for a search that stood as [`astar_finished`] says when it
/// returned the walk `path`.
pub open spec fn explored_count_ok(maze: Maze, start: Coord, goal: Coord, path: Seq<Coord>, explored: int) -> bool {
    exists|closed: Seq<bool>, g: Seq<u32>|
        #[trigger] astar_finished(maze, start, goal, closed, g, path) && explored == count_true(closed) + 1
}

/// Taking an entry with the smallest estimate, and expanding its cell, keeps
/// [`open_estimates`].
proof fn lemma_estimates_pop(
    maze: Maze,
    goal: Coord,
    g: Seq<u32>,
    closed: Seq<bool>,
    before: Seq<(u32, Coord)>,
    after: Seq<(u32, Coord)>,
    r: (u32, Coord),
    ci: int,
)
    requires
        extent_ok(maze.spec_extent()),
        0 <= ci < cell_count(maze.spec_extent()),
        r.1 == index_coord(maze.spec_extent(), ci),
        g.len() == cell_count(maze.spec_extent()),
        closed.len() == cell_count(maze.spec_extent()),
        open_estimates(maze, goal, g, closed, before),
        forall|j: int| 0 <= j < after.len() ==> before.contains(#[trigger] after[j]),
        forall|j: int| 0 <= j < before.len() && before[j] != r ==> after.contains(#[trigger] before[j]),
    ensures
        open_estimates(maze, goal, g, closed.update(ci, true), after),
{
    let e = maze.spec_extent();
    let n = cell_count(e);
    let c1 = closed.update(ci, true);
    assert forall|i: int| 0 <= i < n && #[trigger] g[i] != u32::MAX && !c1[i] implies after.contains(
        (astar_estimate(g[i], index_coord(e, i), goal) as u32, index_coord(e, i)),
    ) by {
        let en = (astar_estimate(g[i], index_coord(e, i), goal) as u32, index_coord(e, i));
        assert(i != ci);
        assert(!closed[i]);
        assert(before.contains(en));
        lemma_index_coord(e, i);
        lemma_index_coord(e, ci);
        assert(en.1 != r.1);
        let j = choose|j: int| 0 <= j < before.len() && before[j] == en;
        assert(after.contains(before[j]));
    }
    assert forall|k: int| 0 <= k < after.len() implies (#[trigger] after[k]).0 >= astar_estimate(
        g[cell_index(e, after[k].1)],
        after[k].1,
        goal,
    ) by {
        assert(before.contains(after[k]));
        let j = choose|j: int| 0 <= j < before.len() && before[j] == after[k];
        assert(before[j].0 >= astar_estimate(g[cell_index(e, before[j].1)], before[j].1, goal));
    }
}

/// Lowering the distance of cell `ni` to `t` and filing it under the
/// estimate of `t` keeps [`open_estimates`].
proof fn lemma_estimates_relax(
    maze: Maze,
    goal: Coord,
    g0: Seq<u32>,
    closed: Seq<bool>,
    open0: Seq<(u32, Coord)>,
    ni: int,
    t: u32,
    nb: Coord,
)
    requires
        extent_ok(maze.spec_extent()),
        g0.len() == cell_count(maze.spec_extent()),
        0 <= ni < cell_count(maze.spec_extent()),
        nb == index_coord(maze.spec_extent(), ni),
        t < g0[ni],
        isqrt(dist_sq_spec(nb, goal)) >= 0,
        open_estimates(maze, goal, g0, closed, open0),
        forall|k: int| 0 <= k < open0.len() ==> in_extent(maze.spec_extent(), (#[trigger] open0[k]).1),
    ensures
        open_estimates(
            maze,
            goal,
            g0.update(ni, t),
            closed,
            open0.push((astar_estimate(t, nb, goal) as u32, nb)),
        ),
{
    let e = maze.spec_extent();
    let n = cell_count(e);
    let g1 = g0.update(ni, t);
    let en = (astar_estimate(t, nb, goal) as u32, nb);
    let open1 = open0.push(en);
    lemma_index_coord(e, ni);
    assert forall|i: int| 0 <= i < n && #[trigger] g1[i] != u32::MAX implies isqrt(dist_sq_spec(index_coord(e, i), goal))
        >= 0 by {
        if i != ni {
            assert(g0[i] != u32::MAX);
        }
    }
    assert forall|i: int| 0 <= i < n && #[trigger] g1[i] != u32::MAX && !closed[i] implies open1.contains(
        (astar_estimate(g1[i], index_coord(e, i), goal) as u32, index_coord(e, i)),
    ) by {
        if i == ni {
            assert(open1[open0.len() as int] == en);
        } else {
            assert(g1[i] == g0[i]);
            let x = (astar_estimate(g0[i], index_coord(e, i), goal) as u32, index_coord(e, i));
            assert(open0.contains(x));
            let j = choose|j: int| 0 <= j < open0.len() && open0[j] == x;
            assert(open1[j] == x);
        }
    }
    assert forall|k: int| 0 <= k < open1.len() implies (#[trigger] open1[k]).0 >= astar_estimate(
        g1[cell_index(e, open1[k].1)],
        open1[k].1,
        goal,
    ) by {
        if k < open0.len() {
            assert(open1[k] == open0[k]);
            assert(open0[k].0 >= astar_estimate(g0[cell_index(e, open0[k].1)], open0[k].1, goal));
            lemma_cell_index(e, open0[k].1);
            assert(g1[cell_index(e, open0[k].1)] <= g0[cell_index(e, open0[k].1)]);
        } else {
            assert(open1[k] == en);
        }
    }
}

/// When the entry taken is the goal's, its estimate is the goal's distance,
/// and every other cell found and not expanded is filed no lower.
proof fn lemma_goal_taken(
    maze: Maze,
    goal: Coord,
    g: Seq<u32>,
    closed: Seq<bool>,
    before: Seq<(u32, Coord)>,
    f: u32,
)
    requires
        extent_ok(maze.spec_extent()),
        g.len() == cell_count(maze.spec_extent()),
        in_extent(maze.spec_extent(), goal),
        g[cell_index(maze.spec_extent(), goal)] != u32::MAX,
        !closed[cell_index(maze.spec_extent(), goal)],
        open_estimates(maze, goal, g, closed, before),
        before.contains((f, goal)),
        forall|j: int| 0 <= j < before.len() ==> f <= (#[trigger] before[j]).0,
    ensures
        f == g[cell_index(maze.spec_extent(), goal)],
        forall|i: int|
            0 <= i < cell_count(maze.spec_extent()) && #[trigger] g[i] != u32::MAX && !closed[i] ==> astar_estimate(
                g[i],
                index_coord(maze.spec_extent(), i),
                goal,
            ) >= f,
{
    let e = maze.spec_extent();
    let n = cell_count(e);
    let gi = cell_index(e, goal);
    lemma_cell_index(e, goal);
    assert(is_floor_sqrt(0, 0));
    lemma_isqrt(0, 0);
    assert(dist_sq_spec(goal, goal) == 0);
    assert(astar_estimate(g[gi], goal, goal) == g[gi]);
    let k = choose|k: int| 0 <= k < before.len() && before[k] == (f, goal);
    assert(before[k].0 >= astar_estimate(g[cell_index(e, before[k].1)], before[k].1, goal));
    assert forall|i: int|
        0 <= i < n && #[trigger] g[i] != u32::MAX && !closed[i] implies astar_estimate(g[i], index_coord(e, i), goal) >= f by {
        let x = (astar_estimate(g[i], index_coord(e, i), goal) as u32, index_coord(e, i));
        assert(before.contains(x));
        let j = choose|j: int| 0 <= j < before.len() && before[j] == x;
        assert(f <= before[j].0);
    }
}

/// `p` is a walk through the passages from `start` to `goal`.
pub open spec fn walk_between(maze: Maze, start: Coord, goal: Coord, p: Seq<Coord>) -> bool {
    &&& p.len() >= 1
    &&& p[0] == start
    &&& p.last() == goal
    &&& is_walk(maze, p)
}

proof fn lemma_walk_found(
    maze: Maze,
    start: Coord,
    goal: Coord,
    g: Seq<u32>,
    came: Seq<Option<Coord>>,
    closed: Seq<bool>,
    closed_count: int,
    open: Seq<(u32, Coord)>,
    p: Seq<Coord>,
    k: int,
)
    requires
        maze.wf(),
        search_ok(maze, start, g, came, closed, closed_count, open),
        frontier_ok(maze, goal, g, closed, open),
        open.len() == 0,
        p.len() >= 1,
        p[0] == start,
        is_walk(maze, p),
        0 <= k < p.len(),
    ensures
        in_extent(maze.spec_extent(), p[k]),
        g[cell_index(maze.spec_extent(), p[k])] != u32::MAX,
        closed[cell_index(maze.spec_extent(), p[k])],
    decreases k,
{
    let e = maze.spec_extent();
    maze.lemma_wf_extent();
    if k > 0 {
        lemma_walk_found(maze, start, goal, g, came, closed, closed_count, open, p, k - 1);
        let q = p[k - 1];
        assert(maze.links(p[k - 1]).contains(p[k - 1 + 1]));
        maze.lemma_passages(q, p[k]);
        lemma_cell_index(e, q);
        let i = cell_index(e, q);
        let j = choose|j: int| 0 <= j < maze.links(q).len() && maze.links(q)[j] == p[k];
        assert(maze.links(index_coord(e, i))[j] == p[k]);
    }
    lemma_cell_index(e, p[k]);
    let i = cell_index(e, p[k]);
    if !closed[i] {
        assert(g[i] != u32::MAX);
    }
}

/// An exhausted search has found every walk's end, so none reaches the goal.
proof fn lemma_no_walk(
    maze: Maze,
    start: Coord,
    goal: Coord,
    g: Seq<u32>,
    came: Seq<Option<Coord>>,
    closed: Seq<bool>,
    closed_count: int,
    open: Seq<(u32, Coord)>,
)
    requires
        maze.wf(),
        search_ok(maze, start, g, came, closed, closed_count, open),
        frontier_ok(maze, goal, g, closed, open),
        open.len() == 0,
    ensures
        forall|p: Seq<Coord>| !(#[trigger] walk_between(maze, start, goal, p)),
{
    assert forall|p: Seq<Coord>| !(#[trigger] walk_between(maze, start, goal, p)) by {
        if walk_between(maze, start, goal, p) {
            lemma_walk_found(maze, start, goal, g, came, closed, closed_count, open, p, p.len() - 1);
        }
    }
}

proof fn lemma_reverse_walk(maze: Maze, p: Seq<Coord>) -> (q: Seq<Coord>)
    requires
        maze.wf(),
        p.len() >= 1,
        is_walk(maze, p),
    ensures
        q.len() == p.len(),
        q[0] == p.last(),
        q.last() == p[0],
        is_walk(maze, q),
{
    let n = p.len();
    let q = Seq::new(n, |i: int| p[n - 1 - i]);
    assert forall|i: int| #![trigger q[i]] 0 <= i < q.len() - 1 implies maze.links(q[i]).contains(q[i + 1]) by {
        let j = n - 2 - i;
        assert(q[i] == p[j + 1] && q[i + 1] == p[j]);
        assert(maze.links(p[j]).contains(p[j + 1]));
        maze.lemma_passages(p[j], p[j + 1]);
    }
    q
}

proof fn lemma_concat_walk(maze: Maze, p: Seq<Coord>, q: Seq<Coord>) -> (r: Seq<Coord>)
    requires
        p.len() >= 1,
        q.len() >= 1,
        p.last() == q[0],
        is_walk(maze, p),
        is_walk(maze, q),
    ensures
        r.len() >= 1,
        r[0] == p[0],
        r.last() == q.last(),
        is_walk(maze, r),
{
    let r = p + q.drop_first();
    assert forall|i: int| #![trigger r[i]] 0 <= i < r.len() - 1 implies maze.links(r[i]).contains(r[i + 1]) by {
        if i < p.len() - 1 {
            assert(r[i] == p[i] && r[i + 1] == p[i + 1]);
        } else {
            let j = i - (p.len() - 1);
            assert(r[i] == q[j] && r[i + 1] == q[j + 1]);
            assert(maze.links(q[j]).contains(q[j + 1]));
        }
    }
    if q.len() == 1 {
        assert(r.last() == p.last());
    } else {
        assert(r.last() == q.last());
    }
    r
}

/// In a connected maze any two carved cells are joined by a walk through
/// the passages.
pub proof fn lemma_carved_cells_joined(maze: Maze, a: Coord, b: Coord)
    requires
        maze.wf(),
        maze.connected(),
        maze.carved_at(a),
        maze.carved_at(b),
    ensures
        exists|p: Seq<Coord>| #[trigger] walk_between(maze, a, b, p),
{
    let pa = choose|p: Seq<Coord>| #[trigger] walk_between(maze, maze.spec_start(), a, p);
    let pb = choose|p: Seq<Coord>| #[trigger] walk_between(maze, maze.spec_start(), b, p);
    let ra = lemma_reverse_walk(maze, pa);
    let w = lemma_concat_walk(maze, ra, pb);
    assert(walk_between(maze, a, b, w));
}

/// Follows the recorded predecessors back from the goal to the start and
/// returns the walk start-to-goal with the number of cells explored.
/// When the search has found a goal other than the start, the expanded cells
/// and the goal are carved cells, so counting them gives at most the number
/// of carved cells.
proof fn lemma_closed_carved(
    maze: Maze,
    start: Coord,
    goal: Coord,
    g: Seq<u32>,
    came: Seq<Option<Coord>>,
    closed: Seq<bool>,
    closed_count: int,
    open: Seq<(u32, Coord)>,
)
    requires
        maze.wf(),
        search_ok(maze, start, g, came, closed, closed_count, open),
        in_extent(maze.spec_extent(), goal),
        g[cell_index(maze.spec_extent(), goal)] != u32::MAX,
        goal != start,
        !closed[cell_index(maze.spec_extent(), goal)],
    ensures
        closed_count + 1 <= count_true(maze.carved_flags()),
{
    let e = maze.spec_extent();
    maze.lemma_wf_extent();
    maze.lemma_carved_flags(start);
    lemma_cell_index(e, goal);
    lemma_cell_index(e, start);
    let gi = cell_index(e, goal);
    let si = cell_index(e, start);
    assert(gi != si);
    // The goal was reached from a cell, so it is carved; following the
    // reached-from cells back shows the start is carved too.
    assert forall|i: int| 0 <= i < cell_count(e) && #[trigger] came[i] is Some implies maze.carved_at(
        index_coord(e, i),
    ) && maze.carved_at(came[i]->0) by {
        maze.lemma_passages(came[i]->0, index_coord(e, i));
    }
    assert(maze.carved_at(start)) by {
        lemma_start_reached(maze, start, g, came, closed, closed_count, open, gi);
    }
    let marked = closed.update(gi, true);
    lemma_count_true_set(closed, gi);
    assert forall|i: int| 0 <= i < marked.len() && #[trigger] marked[i] implies maze.carved_flags()[i] by {
        lemma_index_coord(e, i);
        maze.lemma_carved_flags(index_coord(e, i));
        if i != si {
            assert(g[i] != u32::MAX);
            assert(came[i] is Some);
        }
    }
    lemma_count_true_mono(marked, maze.carved_flags());
}

/// Following reached-from cells back from a found cell other than the start
/// ends at the start through a passage, so the start is carved.
proof fn lemma_start_reached(
    maze: Maze,
    start: Coord,
    g: Seq<u32>,
    came: Seq<Option<Coord>>,
    closed: Seq<bool>,
    closed_count: int,
    open: Seq<(u32, Coord)>,
    i: int,
)
    requires
        maze.wf(),
        search_ok(maze, start, g, came, closed, closed_count, open),
        0 <= i < cell_count(maze.spec_extent()),
        g[i] != u32::MAX,
        i != cell_index(maze.spec_extent(), start),
    ensures
        maze.carved_at(start),
    decreases g[i],
{
    let e = maze.spec_extent();
    maze.lemma_wf_extent();
    let p = came[i]->0;
    maze.lemma_passages(p, index_coord(e, i));
    lemma_cell_index(e, p);
    let pi = cell_index(e, p);
    if pi == cell_index(e, start) {
        lemma_cell_index(e, start);
        assert(p == start);
    } else {
        lemma_start_reached(maze, start, g, came, closed, closed_count, open, pi);
    }
}

fn reconstruct(
    maze: &Maze,
    start: Coord,
    goal: Coord,
    g: &Vec<u32>,
    came: &Vec<Option<Coord>>,
    closed: &Vec<bool>,
    closed_count: usize,
    open: &Vec<(u32, Coord)>,
) -> (r: (Vec<Coord>, usize))
    requires
        maze.wf(),
        search_ok(*maze, start, g@, came@, closed@, closed_count as int, open@),
        in_extent(maze.spec_extent(), goal),
        g@[cell_index(maze.spec_extent(), goal)] != u32::MAX,
        goal != start,
        !closed@[cell_index(maze.spec_extent(), goal)],
        forall|i: int, j: int|
            0 <= i < cell_count(maze.spec_extent()) && #[trigger] closed@[i] && 0 <= j < maze.links(
                index_coord(maze.spec_extent(), i),
            ).len() ==> g@[cell_index(
                maze.spec_extent(),
                #[trigger] maze.links(index_coord(maze.spec_extent(), i))[j],
            )] != u32::MAX,
        forall|i: int|
            0 <= i < cell_count(maze.spec_extent()) && #[trigger] g@[i] != u32::MAX && !closed@[i] ==> astar_estimate(
                g@[i],
                index_coord(maze.spec_extent(), i),
                goal,
            ) >= g@[cell_index(maze.spec_extent(), goal)],
    ensures
        astar_finished(*maze, start, goal, closed@, g@, r.0@),
        r.1 == count_true(closed@) + 1,
        explored_count_ok(*maze, start, goal, r.0@, r.1 as int),
        r.0@.len() >= 1,
        r.0@[0] == start,
        r.0@.last() == goal,
        is_walk(*maze, r.0@),
        r.1 == closed_count + 1,
        r.0@.no_duplicates(),
        r.0@.len() <= r.1 <= count_true(maze.carved_flags()),
        r.0@.len() == g@[cell_index(maze.spec_extent(), goal)] + 1,
{
    let e = maze.extent();
    proof {
        maze.lemma_wf_extent();
        lemma_count_true_le(closed@);
        lemma_cell_index(e, goal);
        lemma_cell_index(e, start);
    }
    let mut rev: Vec<Coord> = Vec::new();
    rev.push(goal);
    let mut cur = goal;
    loop
        invariant
            extent_ok(e),
            e == maze.spec_extent(),
            search_ok(*maze, start, g@, came@, closed@, closed_count as int, open@),
            rev@.len() >= 1,
            rev@[0] == goal,
            rev@.last() == cur,
            in_extent(e, cur),
            g@[cell_index(e, cur)] != u32::MAX,
            forall|j: int| #![trigger rev@[j]] 0 <= j < rev@.len() - 1 ==> maze.links(rev@[j + 1]).contains(rev@[j]),
            forall|j: int| 0 <= j < rev@.len() ==> in_extent(e, #[trigger] rev@[j]) && g@[cell_index(e, rev@[j])] + j
                == g@[cell_index(e, goal)],
        ensures
            came@[cell_index(e, cur)] is None,
        decreases g@[cell_index(e, cur)],
    {
        proof { lemma_cell_index(e, cur); }
        let ci = match coord_to_index(e, cur) { Some(v) => v as usize, None => 0 };
        match came[ci] {
            Some(p) => {
                proof {
                    assert(came@[ci as int] is Some);
                    lemma_cell_index(e, p);
                }
                let ghost rev_b = rev@;
                rev.push(p);
                cur = p;
                proof {
                    assert forall|j: int| #![trigger rev@[j]] 0 <= j < rev@.len() - 1 implies maze.links(rev@[j + 1]).contains(rev@[j]) by {
                        if j < rev_b.len() - 1 {
                            assert(rev@[j] == rev_b[j] && rev@[j + 1] == rev_b[j + 1]);
                        } else {
                            assert(rev@[j] == rev_b.last());
                            assert(rev@[j + 1] == p);
                        }
                    }
                }
            },
            None => {
                break;
            },
        }
    }
    proof {
        lemma_cell_index(e, cur);
        assert(cell_index(e, cur) == cell_index(e, start));
        assert(cur == start);
        assert(rev@.no_duplicates()) by {
            assert forall|a: int, b: int| 0 <= a < rev@.len() && 0 <= b < rev@.len() && a != b implies rev@[a]
                != rev@[b] by {
                assert(in_extent(e, rev@[a]) && in_extent(e, rev@[b]));
            }
        }
        let gi = cell_index(e, goal);
        assert(g@[cell_index(e, rev@.last())] + (rev@.len() - 1) == g@[gi]);
        assert(g@[gi] <= closed_count);
    }
    let mut path: Vec<Coord> = Vec::new();
    let mut j: usize = rev.len();
    while j > 0
        invariant
            j <= rev@.len(),
            path@.len() == rev@.len() - j,
            forall|i: int| 0 <= i < path@.len() ==> #[trigger] path@[i] == rev@[rev@.len() - 1 - i],
        decreases j,
    {
        j = j - 1;
        path.push(rev[j]);
    }
    proof {
        assert forall|i: int| #![trigger path@[i]] 0 <= i < path@.len() - 1 implies maze.links(path@[i]).contains(path@[i + 1]) by {
            let jj = rev@.len() - 2 - i;
            assert(path@[i] == rev@[jj + 1]);
            assert(path@[i + 1] == rev@[jj]);
        }
        assert forall|a: int, b: int| 0 <= a < path@.len() && 0 <= b < path@.len() && a != b implies path@[a]
            != path@[b] by {
            assert(path@[a] == rev@[rev@.len() - 1 - a]);
            assert(path@[b] == rev@[rev@.len() - 1 - b]);
        }
        lemma_closed_carved(*maze, start, goal, g@, came@, closed@, closed_count as int, open@);
        lemma_cell_index(e, start);
        assert(astar_finished(*maze, start, goal, closed@, g@, path@));
        assert(closed_count + 1 == count_true(closed@) + 1);
        assert(explored_count_ok(*maze, start, goal, path@, closed_count + 1));
    }
    (path, closed_count + 1)
}

/// Removes and returns an open entry with the smallest estimate (the first such).
fn pop_min(open: &mut Vec<(u32, Coord)>) -> (r: (u32, Coord))
    requires
        old(open)@.len() > 0,
    ensures
        final(open)@.len() + 1 == old(open)@.len(),
        old(open)@.contains(r),
        forall|j: int| 0 <= j < final(open)@.len() ==> old(open)@.contains(#[trigger] final(open)@[j]),
        forall|j: int| 0 <= j < old(open)@.len() && old(open)@[j] != r ==> final(open)@.contains(#[trigger] old(open)@[j]),
        forall|j: int| 0 <= j < old(open)@.len() ==> r.0 <= (#[trigger] old(open)@[j]).0,
{
    let mut best: usize = 0;
    let mut k: usize = 1;
    while k < open.len()
        invariant
            1 <= k <= open@.len(),
            best < open@.len(),
            forall|j: int| 0 <= j < k ==> open@[best as int].0 <= (#[trigger] open@[j]).0,
        decreases open@.len() - k,
    {
        if open[k].0 < open[best].0 {
            best = k;
        }
        k = k + 1;
    }
    let ghost before = open@;
    let r = open.swap_remove(best);
    proof {
        assert(before[best as int] == r);
        assert forall|j: int| 0 <= j < before.len() && before[j] != r implies open@.contains(#[trigger] before[j]) by {
            if j == before.len() - 1 {
                assert(open@[best as int] == before[j]);
            } else {
                assert(open@[j] == before[j]);
            }
        }
        assert forall|j: int| 0 <= j < open@.len() implies before.contains(#[trigger] open@[j]) by {
            if j == best as int {
                assert(open@[j] == before[before.len() - 1]);
            } else {
                assert(open@[j] == before[j]);
            }
        }
    }
    r
}

/// A* search through the passages of the maze from `start` to `goal`, with
/// unit step costs and the rounded-down straight-line distance as the
/// estimate. On success it returns a walk from `start` to `goal` and the
/// number of cells explored: the cells it expanded before it took the goal,
/// plus the goal ([`astar_finished`] says where the search stood then).
pub fn astar_pathfind(maze: &Maze, start: Coord, goal: Coord) -> (r: Option<(Vec<Coord>, usize)>)
    requires
        maze.wf(),
        -0x4000_0000 <= goal.0 <= 0x4000_0000,
        -0x4000_0000 <= goal.1 <= 0x4000_0000,
        -0x4000_0000 <= goal.2 <= 0x4000_0000,
    ensures
        start == goal ==> (r matches Some(p) && p.0@ == seq![goal] && p.1 == 1),
        r matches Some(p) ==> {
            &&& p.0@.len() >= 1
            &&& p.0@[0] == start
            &&& p.0@.last() == goal
            &&& is_walk(*maze, p.0@)
            &&& p.1 >= 1
            &&& p.0@.no_duplicates()
            &&& p.0@.len() <= p.1 <= count_true(maze.carved_flags())
        },
        r is None ==> forall|p: Seq<Coord>| !(#[trigger] walk_between(*maze, start, goal, p)),
        maze.connected() && maze.carved_at(start) && maze.carved_at(goal) ==> r is Some,
        r is Some && start != goal ==> explored_count_ok(*maze, start, goal, (r->0).0@, (r->0).1 as int),
{
    if same_coord(start, goal) {
        let mut path: Vec<Coord> = Vec::new();
        path.push(goal);
        assert(path@ =~= seq![goal]);
        proof {
            maze.lemma_start_carved();
            maze.lemma_wf_extent();
            let s0 = maze.spec_start();
            lemma_cell_index(maze.spec_extent(), s0);
            assert(cell_index(maze.spec_extent(), s0) == 0);
            maze.lemma_carved_flags(s0);
            let n = maze.carved_flags().len();
            let one = Seq::new(n, |i: int| false).update(0, true);
            lemma_count_true_zero(Seq::new(n, |i: int| false));
            lemma_count_true_set(Seq::new(n, |i: int| false), 0);
            assert forall|i: int| 0 <= i < one.len() && #[trigger] one[i] implies maze.carved_flags()[i] by {}
            lemma_count_true_mono(one, maze.carved_flags());
        }
        return Some((path, 1));
    }
    let e = maze.extent();
    proof { maze.lemma_wf_extent(); }
    let si = match coord_to_index(e, start) {
        Some(v) => v as usize,
        None => {
            proof {
                if maze.connected() && maze.carved_at(start) && maze.carved_at(goal) {
                    lemma_carved_cells_joined(*maze, start, goal);
                }
                maze.lemma_links_outside(start);
                assert forall|p: Seq<Coord>| !(#[trigger] walk_between(*maze, start, goal, p)) by {
                    if walk_between(*maze, start, goal, p) {
                        if p.len() >= 2 {
                            assert(maze.links(p[0int]).contains(p[0int + 1]));
                        }
                    }
                }
            }
            return None;
        },
    };
    proof { lemma_cell_index(e, start); }
    let total = maze.cell_total();
    let mut g: Vec<u32> = Vec::new();
    let mut came: Vec<Option<Coord>> = Vec::new();
    let mut closed: Vec<bool> = Vec::new();
    let mut t: usize = 0;
    while t < total
        invariant
            t <= total,
            g@ == Seq::new(t as nat, |i: int| u32::MAX),
            came@ == Seq::new(t as nat, |i: int| None::<Coord>),
            closed@ == Seq::new(t as nat, |i: int| false),
        decreases total - t,
    {
        g.push(u32::MAX);
        came.push(None);
        closed.push(false);
        assert(g@ =~= Seq::new((t + 1) as nat, |i: int| u32::MAX));
        assert(came@ =~= Seq::new((t + 1) as nat, |i: int| None::<Coord>));
        assert(closed@ =~= Seq::new((t + 1) as nat, |i: int| false));
        t = t + 1;
    }
    proof {
        assert(count_true(closed@) == 0) by {
            lemma_count_true_zero(closed@);
        }
    }
    g.set(si, 0);
    let mut closed_count: usize = 0;
    let mut open: Vec<(u32, Coord)> = Vec::new();
    let h0 = heuristic(start, goal);
    open.push((h0, start));
    proof {
        assert(index_coord(e, si as int) == start);
        assert(open@[0] == (h0, start));
        assert(astar_estimate(0, start, goal) == h0);
        assert forall|i: int| 0 <= i < cell_count(e) && #[trigger] g@[i] != u32::MAX && !closed@[i] implies open@.contains(
            (astar_estimate(g@[i], index_coord(e, i), goal) as u32, index_coord(e, i)),
        ) by {
            assert(i == si as int);
        }
        assert(open_estimates(*maze, goal, g@, closed@, open@));
        assert forall|i: int|
            0 <= i < cell_count(e) && #[trigger] g@[i] != u32::MAX && !closed@[i] implies exists|k: int|
                0 <= k < open@.len() && cell_index(e, (#[trigger] open@[k]).1) == i by {
            assert(i == si as int);
            assert(cell_index(e, open@[0].1) == i);
        }
        assert forall|i: int| 0 <= i < cell_count(e) implies !(#[trigger] closed@[i]) by {}
        if in_extent(e, goal) {
            lemma_cell_index(e, goal);
        }
        assert(frontier_ok(*maze, goal, g@, closed@, open@));
    }
    while open.len() > 0
        invariant
            maze.wf(),
            extent_ok(e),
            e == maze.spec_extent(),
            total as int == cell_count(e),
            -0x4000_0000 <= goal.0 <= 0x4000_0000,
            -0x4000_0000 <= goal.1 <= 0x4000_0000,
            -0x4000_0000 <= goal.2 <= 0x4000_0000,
            start != goal,
            search_ok(*maze, start, g@, came@, closed@, closed_count as int, open@),
            frontier_ok(*maze, goal, g@, closed@, open@),
            open_estimates(*maze, goal, g@, closed@, open@),
        decreases total - closed_count, open@.len(),
    {
        let ghost open_before = open@;
        let (f, current) = pop_min(&mut open);
        proof {
            let k = choose|k: int| 0 <= k < open_before.len() && open_before[k] == (f, current);
            assert(in_extent(e, open_before[k].1));
            lemma_cell_index(e, current);
            lemma_count_true_le(closed@);
        }
        let ci = match coord_to_index(e, current) { Some(v) => v as usize, None => 0 };
        proof {
            assert forall|k: int| 0 <= k < open@.len() implies in_extent(e, (#[trigger] open@[k]).1) && g@[cell_index(
                e,
                open@[k].1,
            )] != u32::MAX by {
                assert(open_before.contains(open@[k]));
                let k0 = choose|k0: int| 0 <= k0 < open_before.len() && open_before[k0] == open@[k];
                assert(in_extent(e, open_before[k0].1));
            }
            let k1 = choose|k: int| 0 <= k < open_before.len() && open_before[k] == (f, current);
            assert(in_extent(e, open_before[k1].1));
            assert(g@[ci as int] != u32::MAX);
        }
        if same_coord(current, goal) {
            proof {
                lemma_cell_index(e, goal);
                lemma_goal_taken(*maze, goal, g@, closed@, open_before, f);
            }
            return Some(reconstruct(maze, start, goal, &g, &came, &closed, closed_count, &open));
        }
        proof {
            assert forall|i: int|
                0 <= i < cell_count(e) && #[trigger] g@[i] != u32::MAX && !closed@[i] && i != ci as int implies exists|k: int|
                    0 <= k < open@.len() && cell_index(e, (#[trigger] open@[k]).1) == i by {
                let k0 = choose|k0: int| 0 <= k0 < open_before.len() && cell_index(e, (#[trigger] open_before[k0]).1) == i;
                assert(open_before[k0] != (f, current));
                assert(open@.contains(open_before[k0]));
                let k1 = choose|k1: int| 0 <= k1 < open@.len() && open@[k1] == open_before[k0];
                assert(cell_index(e, open@[k1].1) == i);
            }
            if in_extent(e, goal) {
                lemma_cell_index(e, goal);
                lemma_cell_index(e, current);
                assert(cell_index(e, goal) != ci as int);
            }
        }
        if !closed[ci] {
            proof { lemma_count_true_set(closed@, ci as int); }
            let ghost closed_b = closed@;
            closed.set(ci, true);
            closed_count = closed_count + 1;
            proof {
                lemma_index_coord(e, ci as int);
                lemma_cell_index(e, current);
                lemma_estimates_pop(*maze, goal, g@, closed_b, open_before, open@, (f, current), ci as int);
                assert(closed@ == closed_b.update(ci as int, true));
                assert forall|i: int| 0 <= i < cell_count(e) && #[trigger] g@[i] != u32::MAX implies g@[i]
                    <= closed_count by {}
                assert forall|i: int| 0 <= i < cell_count(e) && #[trigger] closed@[i] implies g@[i] != u32::MAX by {
                    if i != ci as int {
                        assert(closed_b[i]);
                    }
                }
                assert forall|i: int|
                    0 <= i < cell_count(e) && #[trigger] came@[i] is Some implies {
                        let p = came@[i]->0;
                        &&& in_extent(e, p)
                        &&& closed@[cell_index(e, p)]
                        &&& maze.links(p).contains(index_coord(e, i))
                        &&& g@[i] != u32::MAX
                        &&& g@[i] == g@[cell_index(e, p)] + 1
                    } by {
                    let p = came@[i]->0;
                    lemma_cell_index(e, p);
                }
                assert(search_ok(*maze, start, g@, came@, closed@, closed_count as int, open@));
            }
            let neighbors = maze.get_connected_neighbors(current);
            let mut m: usize = 0;
            while m < neighbors.len()
                invariant
                    maze.wf(),
                    extent_ok(e),
                    e == maze.spec_extent(),
                    total as int == cell_count(e),
                    -0x4000_0000 <= goal.0 <= 0x4000_0000,
                    -0x4000_0000 <= goal.1 <= 0x4000_0000,
                    -0x4000_0000 <= goal.2 <= 0x4000_0000,
                    in_extent(e, current),
                    ci as int == cell_index(e, current),
                    closed@[ci as int],
                    g@[ci as int] < closed_count,
                    neighbors@ == maze.links(current),
                    m <= neighbors@.len(),
                    search_ok(*maze, start, g@, came@, closed@, closed_count as int, open@),
                    index_coord(e, ci as int) == current,
                    frontier_during(*maze, goal, g@, closed@, open@, ci as int, m as int),
                    open_estimates(*maze, goal, g@, closed@, open@),
                decreases neighbors@.len() - m,
            {
                let nb = neighbors[m];
                let ghost g_pre = g@;
                let ghost open_pre = open@;
                proof {
                    lemma_cell_index(e, current);
                    assert(maze.links(current).contains(nb));
                    maze.lemma_passages(current, nb);
                    lemma_cell_index(e, nb);
                }
                let ni = match coord_to_index(e, nb) { Some(v) => v as usize, None => 0 };
                if !closed[ni] {
                    let tentative = g[ci] + 1;
                    if tentative < g[ni] {
                        let ghost g_b = g@;
                        let ghost came_b = came@;
                        came.set(ni, Some(current));
                        g.set(ni, tentative);
                        assert(g@[ni as int] == tentative);
                        let h = heuristic(nb, goal);
                        let est = tentative.saturating_add(h);
                        let ghost open_prev = open@;
                        open.push((est, nb));
                        proof {
                            lemma_index_coord(e, ni as int);
                            assert(est as int == astar_estimate(tentative, nb, goal));
                            assert(g@ == g_b.update(ni as int, tentative));
                            assert forall|k: int| 0 <= k < open_prev.len() implies in_extent(e, (#[trigger] open_prev[k]).1) by {}
                            lemma_estimates_relax(*maze, goal, g_b, closed@, open_prev, ni as int, tentative, nb);
                            assert(open@ == open_prev.push((astar_estimate(tentative, nb, goal) as u32, nb)));
                            assert(open@[open@.len() - 1] == (est, nb));
                            assert(cell_index(e, open@[open@.len() - 1].1) == ni as int);
                            lemma_index_coord(e, ni as int);
                            assert(index_coord(e, ni as int) == nb);
                            assert(ni != ci);
                            assert(ni as int != cell_index(e, start));
                            assert(g@[ci as int] == g_b[ci as int]);
                            assert forall|i: int|
                                0 <= i < cell_count(e) && #[trigger] came@[i] is Some implies {
                                    let p = came@[i]->0;
                                    &&& in_extent(e, p)
                                    &&& closed@[cell_index(e, p)]
                                    &&& maze.links(p).contains(index_coord(e, i))
                                    &&& g@[i] != u32::MAX
                                    &&& g@[i] == g@[cell_index(e, p)] + 1
                                } by {
                                if i != ni as int {
                                    assert(came_b[i] is Some);
                                    let p = came_b[i]->0;
                                    lemma_cell_index(e, p);
                                    assert(closed@[cell_index(e, p)]);
                                    assert(cell_index(e, p) != ni as int);
                                } else {
                                    assert(came@[i]->0 == current);
                                }
                            }
                            assert forall|i: int| 0 <= i < cell_count(e) && #[trigger] g@[i] != u32::MAX implies g@[i]
                                <= closed_count by {
                                if i != ni as int {
                                    assert(g_b[i] != u32::MAX);
                                }
                            }
                            assert forall|i: int| 0 <= i < cell_count(e) && #[trigger] closed@[i] implies g@[i] != u32::MAX by {
                                if i != ni as int {
                                    assert(g_b[i] != u32::MAX);
                                }
                            }
                            assert forall|i: int| 0 <= i < cell_count(e) && #[trigger] g@[i] != u32::MAX && came@[i] is None implies i
                                == cell_index(e, start) by {
                                if i != ni as int {
                                    assert(g_b[i] != u32::MAX && came_b[i] is None);
                                }
                            }
                            assert(g@.len() == cell_count(e));
                            assert(came@.len() == cell_count(e));
                            lemma_cell_index(e, start);
                            assert(g@[cell_index(e, start)] == 0);
                            assert(came@[cell_index(e, start)] is None);
                            assert forall|k: int| 0 <= k < open@.len() implies in_extent(e, (#[trigger] open@[k]).1)
                                && g@[cell_index(e, open@[k].1)] != u32::MAX by {
                                if k < open@.len() - 1 {
                                    assert(open@[k] == open_prev[k]);
                                    lemma_cell_index(e, open_prev[k].1);
                                } else {
                                    assert(open@[k] == (est, nb));
                                }
                            }
                        }
                    } else {
                        proof {
                            lemma_count_true_le(closed@);
                            assert(closed_count <= cell_count(e));
                            assert(g@[ni as int] <= tentative);
                            assert(tentative < u32::MAX);
                        }
                    }
                } else {
                    proof {
                        assert(closed@[ni as int]);
                        assert(g@[ni as int] != u32::MAX);
                    }
                }
                proof {
                    assert(g@[ni as int] != u32::MAX);
                    assert(maze.links(index_coord(e, ci as int))[m as int] == nb);
                    lemma_frontier_step(*maze, goal, g_pre, closed@, open_pre, g@, open@, ci as int, m as int, ni as int);
                }
                m = m + 1;
            }
        } else {
            proof {
                lemma_index_coord(e, ci as int);
                lemma_cell_index(e, current);
                lemma_estimates_pop(*maze, goal, g@, closed@, open_before, open@, (f, current), ci as int);
                assert(closed@.update(ci as int, true) =~= closed@);
            }
        }
    }
    proof {
        lemma_no_walk(*maze, start, goal, g@, came@, closed@, closed_count as int, open@);
        if maze.connected() && maze.carved_at(start) && maze.carved_at(goal) {
            lemma_carved_cells_joined(*maze, start, goal);
        }
    }
    None
}

} // verus!
