//! Reachability in a fixed number of steps along a successor function, and
//! the facts that make breadth-first search by levels correct.

use vstd::prelude::*;

verus! {

/// `p` is a walk: each node after the first is a successor of the one before.
pub open spec fn is_walk<K>(nb: spec_fn(K) -> Seq<K>, p: Seq<K>) -> bool {
    forall|i: int| 0 <= i < p.len() - 1 ==> #[trigger] nb(p[i]).contains(p[i + 1])
}

/// `p` is a walk from `c` to `v` with at most `n` steps.
pub open spec fn walk_within<K>(nb: spec_fn(K) -> Seq<K>, c: K, v: K, n: int, p: Seq<K>) -> bool {
    &&& is_walk(nb, p)
    &&& 1 <= p.len() <= n + 1
    &&& p[0] == c
    &&& p.last() == v
}

/// `v` can be reached from `c` in at most `n` steps, each step going from a
/// node to one of the nodes that `nb` lists for it.
pub open spec fn within<K>(nb: spec_fn(K) -> Seq<K>, c: K, v: K, n: int) -> bool {
    exists|p: Seq<K>| #[trigger] walk_within(nb, c, v, n, p)
}

/// `v` is exactly `n` steps from `c`: reachable in `n` steps and not in fewer.
pub open spec fn at_distance<K>(nb: spec_fn(K) -> Seq<K>, c: K, v: K, n: int) -> bool {
    within(nb, c, v, n) && (n <= 0 || !within(nb, c, v, n - 1))
}

/// Only `c` itself is reached in no steps.
pub proof fn lemma_within_zero<K>(nb: spec_fn(K) -> Seq<K>, c: K, v: K)
    ensures
        within(nb, c, v, 0) <==> v == c,
{
    if v == c {
        assert(walk_within(nb, c, v, 0, seq![c]));
    }
}

/// Within one step of `c` are `c` itself and its successors, and nothing else.
pub proof fn lemma_within_one<K>(nb: spec_fn(K) -> Seq<K>, c: K, v: K)
    ensures
        within(nb, c, v, 1) <==> (v == c || nb(c).contains(v)),
{
    if within(nb, c, v, 1) && v != c {
        let p = choose|p: Seq<K>| #[trigger] walk_within(nb, c, v, 1, p);
        assert(p.len() == 2);
        assert(nb(p[0]).contains(p[0int + 1]));
    }
    lemma_within_zero(nb, c, c);
    lemma_within_zero(nb, c, v);
    if v == c {
        lemma_within_mono(nb, c, v, 0, 1);
    } else if nb(c).contains(v) {
        lemma_within_step(nb, c, c, v, 0);
    }
}

/// One more step from a node reached in `n` steps reaches its successors in `n + 1`.
pub proof fn lemma_within_step<K>(nb: spec_fn(K) -> Seq<K>, c: K, u: K, v: K, n: int)
    requires
        within(nb, c, u, n),
        nb(u).contains(v),
    ensures
        within(nb, c, v, n + 1),
{
    let p = choose|p: Seq<K>| #[trigger] walk_within(nb, c, u, n, p);
    let q = p.push(v);
    assert forall|i: int| 0 <= i < q.len() - 1 implies #[trigger] nb(q[i]).contains(q[i + 1]) by {
        if i < p.len() - 1 {
            assert(nb(p[i]).contains(p[i + 1]));
        }
    }
    assert(walk_within(nb, c, v, n + 1, q));
}

/// What is reachable in `m` steps is reachable in any `n >= m` steps.
pub proof fn lemma_within_mono<K>(nb: spec_fn(K) -> Seq<K>, c: K, v: K, m: int, n: int)
    requires
        m <= n,
        within(nb, c, v, m),
    ensures
        within(nb, c, v, n),
{
    let p = choose|p: Seq<K>| #[trigger] walk_within(nb, c, v, m, p);
    assert(walk_within(nb, c, v, n, p));
}

/// A node first reached in step `n + 1` is a successor of a node exactly `n` steps away.
pub proof fn lemma_new_node_parent<K>(nb: spec_fn(K) -> Seq<K>, c: K, v: K, n: int) -> (u: K)
    requires
        0 <= n,
        within(nb, c, v, n + 1),
        !within(nb, c, v, n),
    ensures
        at_distance(nb, c, u, n),
        nb(u).contains(v),
{
    let p = choose|p: Seq<K>| #[trigger] walk_within(nb, c, v, n + 1, p);
    if p.len() <= n + 1 {
        assert(walk_within(nb, c, v, n, p));
    }
    assert(p.len() == n + 2);
    let u = p[n];
    let q = p.take(n + 1);
    assert forall|i: int| 0 <= i < q.len() - 1 implies #[trigger] nb(q[i]).contains(q[i + 1]) by {
        assert(nb(p[i]).contains(p[i + 1]));
    }
    assert(walk_within(nb, c, u, n, q));
    assert(nb(p[n]).contains(p[n + 1]));
    if n > 0 && within(nb, c, u, n - 1) {
        lemma_within_step(nb, c, u, v, n - 1);
    }
    u
}

/// One level of breadth-first search: if `old` holds what is reachable in `d`
/// steps and `front` what is exactly `d` steps away, then adding the
/// successors of `front` gives what is reachable in `d + 1` steps.
pub proof fn lemma_level_step<K>(
    nb: spec_fn(K) -> Seq<K>,
    c: K,
    old: Seq<K>,
    front: Seq<K>,
    new: Seq<K>,
    d: int,
)
    requires
        0 <= d,
        forall|x: K| #[trigger] old.contains(x) <==> within(nb, c, x, d),
        forall|x: K| #[trigger] front.contains(x) <==> at_distance(nb, c, x, d),
        forall|x: K|
            #[trigger] new.contains(x) <==> (old.contains(x) || exists|j: int|
                0 <= j < front.len() && #[trigger] nb(front[j]).contains(x)),
    ensures
        forall|x: K| #[trigger] new.contains(x) <==> within(nb, c, x, d + 1),
{
    assert forall|x: K| #[trigger] new.contains(x) <==> within(nb, c, x, d + 1) by {
        if new.contains(x) {
            if old.contains(x) {
                lemma_within_mono(nb, c, x, d, d + 1);
            } else {
                let j = choose|j: int| 0 <= j < front.len() && #[trigger] nb(front[j]).contains(x);
                assert(front.contains(front[j]));
                lemma_within_step(nb, c, front[j], x, d);
            }
        }
        if within(nb, c, x, d + 1) && !old.contains(x) {
            let u = lemma_new_node_parent(nb, c, x, d);
            assert(front.contains(u));
            let j = choose|j: int| 0 <= j < front.len() && front[j] == u;
            assert(nb(front[j]).contains(x));
        }
    }
}

/// The nodes appended after a duplicate-free prefix are exactly the new ones.
pub proof fn lemma_appended_are_new<K>(old: Seq<K>, next: Seq<K>)
    requires
        (old + next).no_duplicates(),
    ensures
        forall|x: K|
            #[trigger] next.contains(x) <==> ((old + next).contains(x) && !old.contains(x)),
{
    let all = old + next;
    assert forall|x: K| #[trigger] next.contains(x) <==> (all.contains(x) && !old.contains(x)) by {
        if next.contains(x) {
            let j = choose|j: int| 0 <= j < next.len() && next[j] == x;
            assert(all[old.len() + j] == x);
            if old.contains(x) {
                let i = choose|i: int| 0 <= i < old.len() && old[i] == x;
                assert(all[i] == x);
            }
        }
        if all.contains(x) && !old.contains(x) {
            let j = choose|j: int| 0 <= j < all.len() && all[j] == x;
            if j < old.len() {
                assert(old[j] == x);
            } else {
                assert(next[j - old.len()] == x);
            }
        }
    }
}

/// Growing the number of steps never loses a node: a ring of radius `k`
/// holds the ring of radius `k - 1` and the shell at distance `k`.
pub proof fn lemma_ring_is_previous_ring_and_shell<K>(nb: spec_fn(K) -> Seq<K>, c: K, v: K, k: int)
    requires
        k > 0,
    ensures
        within(nb, c, v, k) <==> (within(nb, c, v, k - 1) || at_distance(nb, c, v, k)),
{
    if within(nb, c, v, k - 1) {
        lemma_within_mono(nb, c, v, k - 1, k);
    }
}

} // verus!
