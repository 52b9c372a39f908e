use vstd::prelude::*;
use super::dag::{acyclic, ascending, levelled, walk_within, walks_to, with_edge, without_edge};

verus! {

/// A vertex that no edge leaves is the start of no walk.
pub proof fn lemma_no_walk_from_sink(e: Map<usize, Set<usize>>, a: usize, b: usize)
    requires
        forall|m: usize| !e[a].contains(m),
    ensures
        !walks_to(e, a, b),
{
    assert forall|k: nat| !walk_within(e, a, b, k) by {
        if k > 0 && e.dom().contains(a) {
            assert(!e[a].contains(b));
        }
    }
}

/// A walk that follows an edge and then a walk is a walk.
pub proof fn lemma_walk_on(e: Map<usize, Set<usize>>, a: usize, m: usize, b: usize)
    requires
        e.dom().contains(a),
        e[a].contains(m),
        m == b || walks_to(e, m, b),
    ensures
        walks_to(e, a, b),
{
    if m == b {
        assert(walk_within(e, a, b, 1));
    } else {
        let k = choose|k: nat| walk_within(e, m, b, k);
        assert(walk_within(e, a, b, k + 1));
    }
}

/// A graph stays acyclic when it gains a vertex that no edge touches and
/// then an edge from an older vertex to the new one.
pub proof fn lemma_grow_acyclic(e: Map<usize, Set<usize>>, p: usize, n: usize)
    requires
        acyclic(e),
        e.dom().contains(p),
        !e.dom().contains(n),
        forall|a: usize, b: usize| #![trigger e[a].contains(b)] e.dom().contains(a) && e[a].contains(b) ==> b != n,
    ensures
        acyclic(e.insert(n, Set::empty())),
        !walks_to(e.insert(n, Set::empty()), n, p),
        acyclic(with_edge(e.insert(n, Set::empty()), p, n)),
{
    let level = choose|level: spec_fn(usize) -> nat| levelled(e, level);
    let e1 = e.insert(n, Set::empty());
    assert(levelled(e1, level)) by {
        assert forall|a: usize, b: usize|
            #![trigger e1[a].contains(b)]
            e1.dom().contains(a) && e1[a].contains(b) implies level(a) > level(b) by {
            assert(e[a].contains(b));
        }
    }
    lemma_no_walk_from_sink(e1, n, p);
    let e2 = with_edge(e1, p, n);
    let raised = |v: usize|
        if v == n {
            0nat
        } else {
            level(v) + 1
        };
    assert(levelled(e2, raised)) by {
        assert forall|a: usize, b: usize|
            #![trigger e2[a].contains(b)]
            e2.dom().contains(a) && e2[a].contains(b) implies raised(a) > raised(b) by {
            if b != n {
                assert(e[a].contains(b));
            }
        }
    }
}

/// A graph stays acyclic when it gains an edge whose end does not lead back
/// to its start.
pub proof fn lemma_join_acyclic(e: Map<usize, Set<usize>>, x: usize, y: usize)
    requires
        acyclic(e),
        e.dom().contains(x),
        x != y,
        !walks_to(e, y, x),
    ensures
        acyclic(with_edge(e, x, y)),
{
    let level = choose|level: spec_fn(usize) -> nat| levelled(e, level);
    let e2 = with_edge(e, x, y);
    let raised = |v: usize|
        if v == x || walks_to(e, v, x) {
            level(v) + level(y) + 1
        } else {
            level(v)
        };
    assert(levelled(e2, raised)) by {
        assert forall|a: usize, b: usize|
            #![trigger e2[a].contains(b)]
            e2.dom().contains(a) && e2[a].contains(b) implies raised(a) > raised(b) by {
            if a == x && b == y {
            } else {
                assert(e[a].contains(b));
                if b == x || walks_to(e, b, x) {
                    lemma_walk_on(e, a, b, x);
                }
            }
        }
    }
}

/// A graph stays acyclic when it loses an edge.
pub proof fn lemma_part_acyclic(e: Map<usize, Set<usize>>, x: usize, y: usize)
    requires
        acyclic(e),
        e.dom().contains(x),
    ensures
        acyclic(without_edge(e, x, y)),
{
    let level = choose|level: spec_fn(usize) -> nat| levelled(e, level);
    let e2 = without_edge(e, x, y);
    assert(levelled(e2, level)) by {
        assert forall|a: usize, b: usize|
            #![trigger e2[a].contains(b)]
            e2.dom().contains(a) && e2[a].contains(b) implies level(a) > level(b) by {
            assert(e[a].contains(b));
        }
    }
}

/// An ascending sequence that holds exactly the numbers below `n` holds each
/// of them at its own index.
pub proof fn lemma_ascending_cover(s: Seq<usize>, n: nat)
    requires
        ascending(s),
        n <= usize::MAX,
        forall|c: usize| s.contains(c) <==> c < n,
    ensures
        s.len() == n,
        forall|i: int| 0 <= i < s.len() ==> s[i] == i,
{
    assert forall|i: int| 0 <= i < s.len() implies s[i] == i by {
        lemma_ascending_upto(s, n, i);
    }
    if s.len() < n {
        let c = s.len() as usize;
        assert(s.contains(c));
        let j = choose|j: int| 0 <= j < s.len() && s[j] == c;
        assert(s[j] == j);
    }
    if s.len() > n {
        assert(s.contains(s[n as int]));
    }
}

proof fn lemma_ascending_upto(s: Seq<usize>, n: nat, i: int)
    requires
        ascending(s),
        forall|c: usize| s.contains(c) <==> c < n,
        0 <= i < s.len(),
    ensures
        forall|k: int| 0 <= k <= i ==> s[k] == k,
    decreases i,
{
    if i > 0 {
        lemma_ascending_upto(s, n, i - 1);
        assert(s[i - 1] < s[i]);
    }
    assert(s.contains(s[i]));
    if s[i] != i {
        let c = i as usize;
        assert(s.contains(c));
        let j = choose|j: int| 0 <= j < s.len() && s[j] == c;
        if j > i {
            assert(s[i] < s[j]);
        }
    }
}

} // verus!
