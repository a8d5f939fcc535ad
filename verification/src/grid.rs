//! Rings and shells of routes: the cells within, or exactly at, a number of
//! neighbour steps from a centre, found by breadth-first search.

use vstd::prelude::*;
use crate::graph::{at_distance, lemma_appended_are_new, lemma_level_step, lemma_within_one, lemma_within_zero, within};
use crate::ids::Route64;
use crate::neighbors::{
    lemma_route_neighbors_moved, neighbors_route64, route_moved_by, route_moved_by_one_of, route_neighbor_ok,
    route_neighbors_spec, route_values,
};

verus! {

/// The neighbour graph of routes, on raw values.
pub open spec fn route_graph() -> spec_fn(u64) -> Seq<u64> {
    |v: u64| route_neighbors_spec(v)
}

fn contains_route(s: &Vec<Route64>, v: Route64) -> (r: bool)
    ensures
        r == route_values(s@).contains(v@),
{
    let mut i: usize = 0;
    while i < s.len()
        invariant
            i <= s@.len(),
            forall|j: int| 0 <= j < i ==> s@[j]@ != v@,
        decreases s@.len() - i,
    {
        if s[i].raw() == v.raw() {
            proof {
                assert(route_values(s@)[i as int] == v@);
            }
            return true;
        }
        i = i + 1;
    }
    proof {
        if route_values(s@).contains(v@) {
            let j = choose|j: int| 0 <= j < route_values(s@).len() && route_values(s@)[j] == v@;
            assert(s@[j]@ == v@);
        }
    }
    false
}

/// Appends to `visited`, and to the returned level, every neighbour of a
/// frontier route that `visited` does not hold yet, in frontier order and
/// then neighbour order.
fn expand_route_level(visited: Vec<Route64>, frontier: &Vec<Route64>) -> (r: (Vec<Route64>, Vec<Route64>))
    requires
        route_values(visited@).no_duplicates(),
    ensures
        route_values(r.0@) == route_values(visited@) + route_values(r.1@),
        route_values(r.0@).no_duplicates(),
        forall|x: u64|
            #[trigger] route_values(r.0@).contains(x) <==> (route_values(visited@).contains(x) || exists|j: int|
                0 <= j < frontier@.len() && #[trigger] route_graph()(route_values(frontier@)[j]).contains(x)),
{
    let ghost old_vals = route_values(visited@);
    let ghost fvals = route_values(frontier@);
    let mut vis = visited;
    let mut next: Vec<Route64> = Vec::new();
    let mut fi: usize = 0;
    while fi < frontier.len()
        invariant
            fi <= frontier@.len(),
            fvals == route_values(frontier@),
            old_vals == route_values(visited@),
            route_values(vis@) == old_vals + route_values(next@),
            route_values(vis@).no_duplicates(),
            forall|x: u64|
                #[trigger] route_values(vis@).contains(x) <==> (old_vals.contains(x) || exists|j: int|
                    0 <= j < fi && #[trigger] route_graph()(fvals[j]).contains(x)),
        decreases frontier@.len() - fi,
    {
        let ns = neighbors_route64(frontier[fi]);
        let ghost nvals = route_values(ns@);
        assert(nvals == route_graph()(fvals[fi as int]));
        let mut m: usize = 0;
        while m < ns.len()
            invariant
                fi < frontier@.len(),
                m <= ns@.len(),
                nvals == route_values(ns@),
                nvals == route_graph()(fvals[fi as int]),
                fvals == route_values(frontier@),
                old_vals == route_values(visited@),
                route_values(vis@) == old_vals + route_values(next@),
                route_values(vis@).no_duplicates(),
                forall|x: u64|
                    #[trigger] route_values(vis@).contains(x) <==> (old_vals.contains(x) || (exists|j: int|
                        0 <= j < fi && #[trigger] route_graph()(fvals[j]).contains(x))
                        || nvals.take(m as int).contains(x)),
            decreases ns@.len() - m,
        {
            let n = ns[m];
            let ghost before = route_values(vis@);
            let ghost t0 = nvals.take(m as int);
            let ghost t1 = nvals.take(m as int + 1);
            assert(t1 == t0.push(n@));
            if !contains_route(&vis, n) {
                let ghost next_before = route_values(next@);
                vis.push(n);
                next.push(n);
                assert(route_values(vis@) == before.push(n@));
                assert(route_values(next@) == next_before.push(n@));
                assert(route_values(vis@) == old_vals + route_values(next@));
                assert forall|a: int, b: int|
                    0 <= a < b < route_values(vis@).len() implies route_values(vis@)[a] != route_values(
                    vis@,
                )[b] by {
                    if b == before.len() {
                        assert(before.contains(before[a]));
                    }
                }
                assert forall|x: u64|
                    #[trigger] route_values(vis@).contains(x) <==> (old_vals.contains(x) || (exists|j: int|
                        0 <= j < fi && #[trigger] route_graph()(fvals[j]).contains(x))
                        || t1.contains(x)) by {
                    if route_values(vis@).contains(x) && x != n@ {
                        let i = choose|i: int| 0 <= i < route_values(vis@).len() && route_values(vis@)[i] == x;
                        assert(before[i] == x);
                        assert(before.contains(x));
                    }
                    if x == n@ {
                        assert(route_values(vis@)[before.len() as int] == x);
                        assert(t1[m as int] == x);
                    }
                    if t0.contains(x) {
                        let i = choose|i: int| 0 <= i < t0.len() && t0[i] == x;
                        assert(t1[i] == x);
                    }
                    if t1.contains(x) && x != n@ {
                        let i = choose|i: int| 0 <= i < t1.len() && t1[i] == x;
                        assert(t0[i] == x);
                    }
                    if before.contains(x) {
                        let i = choose|i: int| 0 <= i < before.len() && before[i] == x;
                        assert(route_values(vis@)[i] == x);
                    }
                }
            } else {
                assert forall|x: u64|
                    #[trigger] route_values(vis@).contains(x) <==> (old_vals.contains(x) || (exists|j: int|
                        0 <= j < fi && #[trigger] route_graph()(fvals[j]).contains(x))
                        || t1.contains(x)) by {
                    if t0.contains(x) {
                        let i = choose|i: int| 0 <= i < t0.len() && t0[i] == x;
                        assert(t1[i] == x);
                    }
                    if t1.contains(x) && x != n@ {
                        let i = choose|i: int| 0 <= i < t1.len() && t1[i] == x;
                        assert(t0[i] == x);
                    }
                }
            }
            m = m + 1;
        }
        proof {
            assert(nvals.take(ns@.len() as int) == nvals);
            assert forall|x: u64|
                #[trigger] route_values(vis@).contains(x) <==> (old_vals.contains(x) || exists|j: int|
                    0 <= j < fi + 1 && #[trigger] route_graph()(fvals[j]).contains(x)) by {
                if exists|j: int| 0 <= j < fi + 1 && #[trigger] route_graph()(fvals[j]).contains(x) {
                    let j = choose|j: int| 0 <= j < fi + 1 && #[trigger] route_graph()(fvals[j]).contains(x);
                    if j == fi {
                        assert(nvals.contains(x));
                    } else {
                        assert(exists|j: int| 0 <= j < fi && #[trigger] route_graph()(fvals[j]).contains(x));
                    }
                }
                if nvals.contains(x) {
                    assert(route_graph()(fvals[fi as int]).contains(x));
                }
            }
        }
        fi = fi + 1;
    }
    (vis, next)
}

/// Breadth-first search to depth `k`: every route within `k` steps of the
/// centre in search order, and those exactly `k` steps away.
fn route_bfs(center: Route64, k: usize) -> (r: (Vec<Route64>, Vec<Route64>))
    ensures
        route_values(r.0@).len() >= 1,
        route_values(r.0@)[0] == center@,
        route_values(r.0@).no_duplicates(),
        route_values(r.1@).no_duplicates(),
        forall|x: u64|
            #[trigger] route_values(r.0@).contains(x) <==> within(route_graph(), center@, x, k as int),
        forall|x: u64|
            #[trigger] route_values(r.1@).contains(x) <==> at_distance(route_graph(), center@, x, k as int),
{
    let mut visited: Vec<Route64> = Vec::new();
    visited.push(center);
    let mut frontier: Vec<Route64> = Vec::new();
    frontier.push(center);
    proof {
        assert(route_values(visited@) == seq![center@]);
        assert forall|x: u64| #[trigger] route_values(visited@).contains(x) <==> within(route_graph(), center@, x, 0) by {
            lemma_within_zero(route_graph(), center@, x);
            if x == center@ {
                assert(route_values(visited@)[0] == x);
            }
        }
    }
    let mut d: usize = 0;
    while d < k
        invariant
            d <= k,
            route_values(visited@).len() >= 1,
            route_values(visited@)[0] == center@,
            route_values(visited@).no_duplicates(),
            route_values(frontier@).no_duplicates(),
            forall|x: u64|
                #[trigger] route_values(visited@).contains(x) <==> within(route_graph(), center@, x, d as int),
            forall|x: u64|
                #[trigger] route_values(frontier@).contains(x) <==> at_distance(route_graph(), center@, x, d as int),
        decreases k - d,
    {
        let ghost old_vals = route_values(visited@);
        let ghost fvals = route_values(frontier@);
        let (grown, next) = expand_route_level(visited, &frontier);
        proof {
            lemma_level_step(route_graph(), center@, old_vals, fvals, route_values(grown@), d as int);
            lemma_appended_are_new(old_vals, route_values(next@));
            assert(route_values(grown@)[0] == old_vals[0]);
            assert forall|a: int, b: int|
                0 <= a < b < route_values(next@).len() implies route_values(next@)[a] != route_values(
                next@,
            )[b] by {
                assert(route_values(grown@)[old_vals.len() + a] == route_values(next@)[a]);
                assert(route_values(grown@)[old_vals.len() + b] == route_values(next@)[b]);
            }
        }
        visited = grown;
        frontier = next;
        d = d + 1;
    }
    (visited, frontier)
}

/// All routes within `k` neighbour steps of `center`, in breadth-first order
/// starting with `center` itself, each once.
pub fn route_k_ring(center: Route64, k: usize) -> (r: Vec<Route64>)
    ensures
        route_values(r@).len() >= 1,
        route_values(r@)[0] == center@,
        route_values(r@).no_duplicates(),
        forall|x: u64| #[trigger] route_values(r@).contains(x) <==> within(route_graph(), center@, x, k as int),
{
    let (ring, _) = route_bfs(center, k);
    ring
}

/// All routes exactly `k` neighbour steps from `center`, each once.
pub fn route_k_shell(center: Route64, k: usize) -> (r: Vec<Route64>)
    ensures
        route_values(r@).no_duplicates(),
        forall|x: u64|
            #[trigger] route_values(r@).contains(x) <==> at_distance(route_graph(), center@, x, k as int),
{
    let (_, shell) = route_bfs(center, k);
    shell
}

/// The routes of a ring of radius one are the centre and the centre moved
/// by one of the 14 neighbour offsets: every other route within one step is
/// the centre moved by an offset, and every offset that keeps the
/// coordinates in range and on the lattice reaches a route within one step.
pub proof fn lemma_route_ring_one_is_moved(c: u64, x: u64)
    ensures
        within(route_graph(), c, x, 1) && x != c ==> route_moved_by_one_of(c, x, 14),
        forall|i: int|
            0 <= i < 14 && #[trigger] route_neighbor_ok(c, i) ==> exists|y: u64|
                route_moved_by(c, y, i) && within(route_graph(), c, y, 1),
{
    lemma_route_neighbors_moved(c);
    let nbs = route_neighbors_spec(c);
    lemma_within_one(route_graph(), c, x);
    assert(route_graph()(c) == nbs);
    if within(route_graph(), c, x, 1) && x != c {
        let k = choose|k: int| 0 <= k < nbs.len() && nbs[k] == x;
        assert(route_moved_by_one_of(c, nbs[k], 14));
    }
    assert forall|i: int| 0 <= i < 14 && #[trigger] route_neighbor_ok(c, i) implies exists|y: u64|
        route_moved_by(c, y, i) && within(route_graph(), c, y, 1) by {
        let k = choose|k: int| 0 <= k < nbs.len() && route_moved_by(c, nbs[k], i);
        let y = nbs[k];
        assert(nbs.contains(y));
        lemma_within_one(route_graph(), c, y);
    }
}

} // verus!
