//! Rings and shells of cells: the cells within, or exactly at, a number of
//! neighbour steps from a centre cell, found by breadth-first search.

use vstd::prelude::*;
use crate::graph::{at_distance, lemma_appended_are_new, lemma_level_step, lemma_within_zero, within};
use crate::graph::lemma_within_one;
use crate::id::{
    cell_moved_by, cell_neighbors_upto, cell_on_lattice, cell_values, cell_x, cell_y, cell_z, in_24bit_range,
    lemma_cell_neighbors_moved, lemma_cell_neighbors_on_lattice, moved_by_one_of, CellID,
};
use crate::lattice::{is_bcc, neighbor_offset};

verus! {

/// The neighbour graph of cells, on raw values.
pub open spec fn cell_graph() -> spec_fn(u128) -> Seq<u128> {
    |v: u128| cell_neighbors_upto(v, 14)
}

/// Every cell of the sequence lies on the lattice.
pub open spec fn all_on_lattice(s: Seq<u128>) -> bool {
    forall|j: int| 0 <= j < s.len() ==> cell_on_lattice(#[trigger] s[j])
}

fn contains_cell(s: &Vec<CellID>, v: CellID) -> (r: bool)
    ensures
        r == cell_values(s@).contains(v@),
{
    let mut i: usize = 0;
    while i < s.len()
        invariant
            i <= s@.len(),
            forall|j: int| 0 <= j < i ==> s@[j]@ != v@,
        decreases s@.len() - i,
    {
        if s[i].raw_value() == v.raw_value() {
            proof {
                assert(cell_values(s@)[i as int] == v@);
            }
            return true;
        }
        i = i + 1;
    }
    proof {
        if cell_values(s@).contains(v@) {
            let j = choose|j: int| 0 <= j < cell_values(s@).len() && cell_values(s@)[j] == v@;
            assert(s@[j]@ == v@);
        }
    }
    false
}

/// Appends to `visited`, and to the returned level, every neighbour of a
/// frontier cell that `visited` does not hold yet, in frontier order and
/// then neighbour order.
fn expand_cell_level(visited: Vec<CellID>, frontier: &Vec<CellID>) -> (r: (Vec<CellID>, Vec<CellID>))
    requires
        cell_values(visited@).no_duplicates(),
        all_on_lattice(cell_values(frontier@)),
    ensures
        all_on_lattice(cell_values(r.1@)),
        cell_values(r.0@) == cell_values(visited@) + cell_values(r.1@),
        cell_values(r.0@).no_duplicates(),
        forall|x: u128|
            #[trigger] cell_values(r.0@).contains(x) <==> (cell_values(visited@).contains(x) || exists|j: int|
                0 <= j < frontier@.len() && #[trigger] cell_graph()(cell_values(frontier@)[j]).contains(x)),
{
    let ghost old_vals = cell_values(visited@);
    let ghost fvals = cell_values(frontier@);
    let mut vis = visited;
    let mut next: Vec<CellID> = Vec::new();
    let mut fi: usize = 0;
    while fi < frontier.len()
        invariant
            fi <= frontier@.len(),
            fvals == cell_values(frontier@),
            all_on_lattice(fvals),
            all_on_lattice(cell_values(next@)),
            old_vals == cell_values(visited@),
            cell_values(vis@) == old_vals + cell_values(next@),
            cell_values(vis@).no_duplicates(),
            forall|x: u128|
                #[trigger] cell_values(vis@).contains(x) <==> (old_vals.contains(x) || exists|j: int|
                    0 <= j < fi && #[trigger] cell_graph()(fvals[j]).contains(x)),
        decreases frontier@.len() - fi,
    {
        assert(cell_on_lattice(fvals[fi as int]));
        let ns = frontier[fi].neighbors();
        proof { lemma_cell_neighbors_on_lattice(fvals[fi as int], 14); }
        let ghost nvals = cell_values(ns@);
        assert(nvals == cell_graph()(fvals[fi as int]));
        let mut m: usize = 0;
        while m < ns.len()
            invariant
                fi < frontier@.len(),
                m <= ns@.len(),
                all_on_lattice(fvals),
                all_on_lattice(nvals),
                all_on_lattice(cell_values(next@)),
                nvals == cell_values(ns@),
                nvals == cell_graph()(fvals[fi as int]),
                fvals == cell_values(frontier@),
                old_vals == cell_values(visited@),
                cell_values(vis@) == old_vals + cell_values(next@),
                cell_values(vis@).no_duplicates(),
                forall|x: u128|
                    #[trigger] cell_values(vis@).contains(x) <==> (old_vals.contains(x) || (exists|j: int|
                        0 <= j < fi && #[trigger] cell_graph()(fvals[j]).contains(x))
                        || nvals.take(m as int).contains(x)),
            decreases ns@.len() - m,
        {
            let n = ns[m];
            let ghost before = cell_values(vis@);
            let ghost t0 = nvals.take(m as int);
            let ghost t1 = nvals.take(m as int + 1);
            assert(t1 == t0.push(n@));
            if !contains_cell(&vis, n) {
                let ghost next_before = cell_values(next@);
                vis.push(n);
                next.push(n);
                assert(cell_values(vis@) == before.push(n@));
                assert(cell_values(next@) == next_before.push(n@));
                assert(cell_values(vis@) == old_vals + cell_values(next@));
                assert(cell_on_lattice(nvals[m as int]));
                assert(all_on_lattice(cell_values(next@)));
                assert forall|a: int, b: int|
                    0 <= a < b < cell_values(vis@).len() implies cell_values(vis@)[a] != cell_values(
                    vis@,
                )[b] by {
                    if b == before.len() {
                        assert(before.contains(before[a]));
                    }
                }
                assert forall|x: u128|
                    #[trigger] cell_values(vis@).contains(x) <==> (old_vals.contains(x) || (exists|j: int|
                        0 <= j < fi && #[trigger] cell_graph()(fvals[j]).contains(x))
                        || t1.contains(x)) by {
                    if cell_values(vis@).contains(x) && x != n@ {
                        let i = choose|i: int| 0 <= i < cell_values(vis@).len() && cell_values(vis@)[i] == x;
                        assert(before[i] == x);
                        assert(before.contains(x));
                    }
                    if x == n@ {
                        assert(cell_values(vis@)[before.len() as int] == x);
                        assert(t1[m as int] == x);
                    }
                    if t0.contains(x) {
                        let i = choose|i: int| 0 <= i < t0.len() && t0[i] == x;
                        assert(t1[i] == x);
                    }
                    if t1.contains(x) && x != n@ {
                        let i = choose|i: int| 0 <= i < t1.len() && t1[i] == x;
                        assert(t0[i] == x);
                    }
                    if before.contains(x) {
                        let i = choose|i: int| 0 <= i < before.len() && before[i] == x;
                        assert(cell_values(vis@)[i] == x);
                    }
                }
            } else {
                assert forall|x: u128|
                    #[trigger] cell_values(vis@).contains(x) <==> (old_vals.contains(x) || (exists|j: int|
                        0 <= j < fi && #[trigger] cell_graph()(fvals[j]).contains(x))
                        || t1.contains(x)) by {
                    if t0.contains(x) {
                        let i = choose|i: int| 0 <= i < t0.len() && t0[i] == x;
                        assert(t1[i] == x);
                    }
                    if t1.contains(x) && x != n@ {
                        let i = choose|i: int| 0 <= i < t1.len() && t1[i] == x;
                        assert(t0[i] == x);
                    }
                }
            }
            m = m + 1;
        }
        proof {
            assert(nvals.take(ns@.len() as int) == nvals);
            assert forall|x: u128|
                #[trigger] cell_values(vis@).contains(x) <==> (old_vals.contains(x) || exists|j: int|
                    0 <= j < fi + 1 && #[trigger] cell_graph()(fvals[j]).contains(x)) by {
                if exists|j: int| 0 <= j < fi + 1 && #[trigger] cell_graph()(fvals[j]).contains(x) {
                    let j = choose|j: int| 0 <= j < fi + 1 && #[trigger] cell_graph()(fvals[j]).contains(x);
                    if j == fi {
                        assert(nvals.contains(x));
                    } else {
                        assert(exists|j: int| 0 <= j < fi && #[trigger] cell_graph()(fvals[j]).contains(x));
                    }
                }
                if nvals.contains(x) {
                    assert(cell_graph()(fvals[fi as int]).contains(x));
                }
            }
        }
        fi = fi + 1;
    }
    (vis, next)
}

/// Breadth-first search to depth `k`: every cell within `k` steps of the
/// centre in search order, and those exactly `k` steps away.
fn cell_bfs(center: CellID, k: usize) -> (r: (Vec<CellID>, Vec<CellID>))
    requires
        k > 0 ==> cell_on_lattice(center@),
    ensures
        cell_values(r.0@).len() >= 1,
        cell_values(r.0@)[0] == center@,
        cell_values(r.0@).no_duplicates(),
        cell_values(r.1@).no_duplicates(),
        forall|x: u128|
            #[trigger] cell_values(r.0@).contains(x) <==> within(cell_graph(), center@, x, k as int),
        forall|x: u128|
            #[trigger] cell_values(r.1@).contains(x) <==> at_distance(cell_graph(), center@, x, k as int),
{
    let mut visited: Vec<CellID> = Vec::new();
    visited.push(center);
    let mut frontier: Vec<CellID> = Vec::new();
    frontier.push(center);
    proof {
        assert(cell_values(visited@) == seq![center@]);
        assert forall|x: u128| #[trigger] cell_values(visited@).contains(x) <==> within(cell_graph(), center@, x, 0) by {
            lemma_within_zero(cell_graph(), center@, x);
            if x == center@ {
                assert(cell_values(visited@)[0] == x);
            }
        }
    }
    let mut d: usize = 0;
    while d < k
        invariant
            d <= k,
            k > 0 ==> all_on_lattice(cell_values(frontier@)),
            cell_values(visited@).len() >= 1,
            cell_values(visited@)[0] == center@,
            cell_values(visited@).no_duplicates(),
            cell_values(frontier@).no_duplicates(),
            forall|x: u128|
                #[trigger] cell_values(visited@).contains(x) <==> within(cell_graph(), center@, x, d as int),
            forall|x: u128|
                #[trigger] cell_values(frontier@).contains(x) <==> at_distance(cell_graph(), center@, x, d as int),
        decreases k - d,
    {
        let ghost old_vals = cell_values(visited@);
        let ghost fvals = cell_values(frontier@);
        let (grown, next) = expand_cell_level(visited, &frontier);
        proof {
            lemma_level_step(cell_graph(), center@, old_vals, fvals, cell_values(grown@), d as int);
            lemma_appended_are_new(old_vals, cell_values(next@));
            assert(cell_values(grown@)[0] == old_vals[0]);
            assert forall|a: int, b: int|
                0 <= a < b < cell_values(next@).len() implies cell_values(next@)[a] != cell_values(
                next@,
            )[b] by {
                assert(cell_values(grown@)[old_vals.len() + a] == cell_values(next@)[a]);
                assert(cell_values(grown@)[old_vals.len() + b] == cell_values(next@)[b]);
            }
        }
        visited = grown;
        frontier = next;
        d = d + 1;
    }
    (visited, frontier)
}

/// All routes within `k` neighbour steps of `center`, in breadth-first order
/// starting with `center` itself, each once.
pub fn k_ring(center: CellID, k: usize) -> (r: Vec<CellID>)
    requires
        k > 0 ==> cell_on_lattice(center@),
    ensures
        cell_values(r@).len() >= 1,
        cell_values(r@)[0] == center@,
        cell_values(r@).no_duplicates(),
        forall|x: u128| #[trigger] cell_values(r@).contains(x) <==> within(cell_graph(), center@, x, k as int),
{
    let (ring, _) = cell_bfs(center, k);
    ring
}

/// All routes exactly `k` neighbour steps from `center`, each once.
pub fn k_shell(center: CellID, k: usize) -> (r: Vec<CellID>)
    requires
        k > 0 ==> cell_on_lattice(center@),
    ensures
        cell_values(r@).no_duplicates(),
        forall|x: u128|
            #[trigger] cell_values(r@).contains(x) <==> at_distance(cell_graph(), center@, x, k as int),
{
    let (_, shell) = cell_bfs(center, k);
    shell
}

/// The cells of a ring of radius one are the centre and the centre moved by
/// one of the 14 neighbour offsets: every other cell within one step is the
/// centre moved by an offset, and every offset that keeps the coordinates in
/// range and on the lattice reaches a cell within one step.
pub proof fn lemma_ring_one_is_moved(c: u128, x: u128)
    ensures
        within(cell_graph(), c, x, 1) && x != c ==> moved_by_one_of(c, x, 14),
        forall|i: int|
            0 <= i < 14 && in_24bit_range(cell_x(c) + neighbor_offset(i).0) && in_24bit_range(
                cell_y(c) + neighbor_offset(i).1,
            ) && in_24bit_range(cell_z(c) + neighbor_offset(i).2) && is_bcc(
                cell_x(c) + neighbor_offset(i).0,
                cell_y(c) + neighbor_offset(i).1,
                cell_z(c) + neighbor_offset(i).2,
            ) ==> exists|y: u128| #[trigger] cell_moved_by(c, y, i) && within(cell_graph(), c, y, 1),
{
    lemma_cell_neighbors_moved(c);
    let nbs = cell_neighbors_upto(c, 14);
    lemma_within_one(cell_graph(), c, x);
    assert(cell_graph()(c) == nbs);
    if within(cell_graph(), c, x, 1) && x != c {
        let k = choose|k: int| 0 <= k < nbs.len() && nbs[k] == x;
        assert(moved_by_one_of(c, nbs[k], 14));
    }
    assert forall|i: int|
        0 <= i < 14 && in_24bit_range(cell_x(c) + neighbor_offset(i).0) && in_24bit_range(
            cell_y(c) + neighbor_offset(i).1,
        ) && in_24bit_range(cell_z(c) + neighbor_offset(i).2) && is_bcc(
            cell_x(c) + neighbor_offset(i).0,
            cell_y(c) + neighbor_offset(i).1,
            cell_z(c) + neighbor_offset(i).2,
        ) implies exists|y: u128| #[trigger] cell_moved_by(c, y, i) && within(cell_graph(), c, y, 1) by {
        let k = choose|k: int| 0 <= k < nbs.len() && #[trigger] cell_moved_by(c, nbs[k], i);
        let y = nbs[k];
        assert(nbs.contains(y));
        lemma_within_one(cell_graph(), c, y);
    }
}

} // verus!
