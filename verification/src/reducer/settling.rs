use vstd::prelude::*;
use super::api::{Output, Transition};
use super::dag::{levelled, walk_within, walks_to};
use super::model::Network;
use super::Contact;

verus! {

impl<T> Network<T> {
    /// `other` is this network with nothing changed but the inputs of nodes
    /// that have children.
    pub open spec fn steady(self, other: Self) -> bool {
        &&& other.edges == self.edges
        &&& other.nodes.len() == self.nodes.len()
        &&& forall|i: int|
            0 <= i < self.nodes.len() ==> {
                &&& (#[trigger] other.nodes[i]).id == self.nodes[i].id
                &&& other.nodes[i].configuration == self.nodes[i].configuration
                &&& other.nodes[i].program == self.nodes[i].program
                &&& self.is_leaf(i as usize) ==> other.nodes[i].input == self.nodes[i].input
            }
    }

    /// The chosen numbering does fall along every edge.
    pub proof fn lemma_levels(self)
        requires
            self.shaped(),
        ensures
            levelled(self.edges, self.levels()),
    {
    }

    /// Changing inputs of nodes that have children keeps a network in shape.
    pub proof fn lemma_steady_shaped(self, other: Self)
        requires
            self.shaped(),
            self.steady(other),
        ensures
            other.shaped(),
            other.levels() == self.levels(),
    {
        assert forall|c: usize| #[trigger] other.edges.dom().contains(c) <==> other.has(c) by {
            assert(self.edges.dom().contains(c) <==> self.has(c));
        }
    }
}

impl<T> Network<T> where T: Transition<T>, Contact<T>: Output<T> {
    /// Settled inputs depend on the leaves' inputs, the configurations, the
    /// programs and the edges alone: changing inputs of nodes that have
    /// children changes none of them.
    pub proof fn lemma_settled_steady(self, other: Self, c: usize)
        requires
            self.shaped(),
            self.steady(other),
            self.has(c),
        ensures
            other.settled_input(c) == self.settled_input(c),
            other.settled_output(c) == self.settled_output(c),
        decreases (self.levels())(c),
    {
        self.lemma_steady_shaped(other);
        self.lemma_levels();
        assert(self.edges.dom().contains(c));
        if !self.is_leaf(c) {
            assert forall|k: usize| self.edges[c].contains(k) implies other.nodes[k as int].with_input(
                other.settled_input(k),
            ).output_spec() == self.nodes[k as int].with_input(
                self.settled_input(k),
            ).output_spec() by {
                assert(self.has(k));
                self.lemma_settled_steady(other, k);
                assert(other.nodes[k as int].with_input(other.settled_input(k))
                    == self.nodes[k as int].with_input(self.settled_input(k)));
            }
        }
        assert(other.nodes[c as int].with_input(other.settled_input(c)) == self.nodes[c as int].with_input(
            self.settled_input(c),
        ));
    }

    /// If every node that is unsettled in `other` is unsettled here, then
    /// `other` has no more unsettled nodes than this network.
    pub proof fn lemma_unrest_falls(self, other: Self, m: nat)
        requires
            forall|v: usize| v < m && other.unsettled(v) ==> self.unsettled(v),
        ensures
            other.unsettled_among(m) <= self.unsettled_among(m),
        decreases m,
    {
        if m > 0 {
            self.lemma_unrest_falls(other, (m - 1) as nat);
        }
    }

    /// If moreover some node is unsettled here and settled in `other`, then
    /// `other` has fewer unsettled nodes.
    pub proof fn lemma_unrest_drops(self, other: Self, m: nat, c: usize)
        requires
            forall|v: usize| v < m && other.unsettled(v) ==> self.unsettled(v),
            c < m,
            self.unsettled(c),
            !other.unsettled(c),
        ensures
            other.unsettled_among(m) < self.unsettled_among(m),
        decreases m,
    {
        if m - 1 == c {
            self.lemma_unrest_falls(other, (m - 1) as nat);
        } else {
            self.lemma_unrest_drops(other, (m - 1) as nat, c);
        }
    }

    /// `s` holds every node that a step from one of its nodes leads to.
    pub open spec fn closed(self, s: Set<usize>) -> bool {
        forall|a: usize, b: usize| #![trigger self.step(a, b)] s.contains(a) && self.step(a, b) ==> s.contains(b)
    }

    /// Settling from a node gets to that node.
    pub proof fn lemma_spreads_self(self, c: usize)
        requires
            self.has(c),
        ensures
            self.spreads(c, c),
    {
        assert(self.spreads_within(c, c, 0));
    }

    /// Settling only gets to nodes, and only from a node.
    pub proof fn lemma_spreads_has(self, c: usize, v: usize, k: nat)
        requires
            self.spreads_within(c, v, k),
        ensures
            self.has(c),
            self.has(v),
        decreases k,
    {
        if !(v == c && self.has(c)) {
            let m = choose|m: usize| self.step(c, m) && self.spreads_within(m, v, (k - 1) as nat);
            self.lemma_spreads_has(m, v, (k - 1) as nat);
        }
    }

    /// What settling gets to after one step, it gets to.
    pub proof fn lemma_spreads_step(self, c: usize, m: usize, v: usize)
        requires
            self.step(c, m),
            self.spreads(m, v),
        ensures
            self.spreads(c, v),
    {
        let k = choose|k: nat| self.spreads_within(m, v, k);
        assert(self.spreads_within(c, v, k + 1));
    }

    /// A closed set that holds `c` holds all that settling from `c` gets to.
    pub proof fn lemma_spreads_inside(self, s: Set<usize>, c: usize, v: usize, k: nat)
        requires
            self.closed(s),
            s.contains(c),
            self.spreads_within(c, v, k),
        ensures
            s.contains(v),
        decreases k,
    {
        if !(v == c && self.has(c)) {
            let m = choose|m: usize| self.step(c, m) && self.spreads_within(m, v, (k - 1) as nat);
            self.lemma_spreads_inside(s, m, v, (k - 1) as nat);
        }
    }

    /// What settling from `c` gets to is closed.
    pub proof fn lemma_reach_closed(self, c: usize)
        ensures
            self.closed(self.reach(c)),
    {
        assert forall|a: usize, b: usize| self.reach(c).contains(a) && self.step(a, b) implies self.reach(
            c,
        ).contains(b) by {
            self.lemma_spreads_self(b);
            self.lemma_spreads_step(a, b, b);
            self.lemma_spreads_chain(c, a, b);
        }
    }

    /// Settling gets from `a` to whatever it gets to from a node that it
    /// gets to from `a`.
    pub proof fn lemma_spreads_chain(self, a: usize, b: usize, v: usize)
        requires
            self.spreads(a, b),
            self.spreads(b, v),
        ensures
            self.spreads(a, v),
    {
        let k = choose|k: nat| self.spreads_within(a, b, k);
        self.lemma_spreads_chain_within(a, b, v, k);
    }

    proof fn lemma_spreads_chain_within(self, a: usize, b: usize, v: usize, k: nat)
        requires
            self.spreads_within(a, b, k),
            self.spreads(b, v),
        ensures
            self.spreads(a, v),
        decreases k,
    {
        if !(b == a && self.has(a)) {
            let m = choose|m: usize| self.step(a, m) && self.spreads_within(m, b, (k - 1) as nat);
            self.lemma_spreads_chain_within(m, b, v, (k - 1) as nat);
            self.lemma_spreads_step(a, m, v);
        }
    }

    /// Where every step of `other` is a step here, settling gets here to all
    /// that it gets to in `other`.
    pub proof fn lemma_spreads_wider(self, other: Self, c: usize, v: usize, k: nat)
        requires
            forall|a: usize, b: usize| #![trigger other.step(a, b)] other.step(a, b) ==> self.step(a, b),
            other.nodes.len() == self.nodes.len(),
            other.spreads_within(c, v, k),
        ensures
            self.spreads_within(c, v, k),
        decreases k,
    {
        if !(v == c && other.has(c)) {
            let m = choose|m: usize| other.step(c, m) && other.spreads_within(m, v, (k - 1) as nat);
            self.lemma_spreads_wider(other, m, v, (k - 1) as nat);
            assert(self.step(c, m));
        }
    }

    /// Correcting nodes changes inputs of nodes that have children, nothing
    /// else; so it keeps the shape and every settled input.
    pub proof fn lemma_corrected_steady(self, s: Set<usize>)
        requires
            self.shaped(),
        ensures
            self.steady(self.corrected(s)),
            self.corrected(s).shaped(),
            forall|c: usize|
                self.has(c) ==> #[trigger] self.corrected(s).settled_input(c) == self.settled_input(c),
            forall|c: usize|
                self.has(c) ==> #[trigger] self.corrected(s).settled_output(c) == self.settled_output(
                    c,
                ),
    {
        let other = self.corrected(s);
        assert forall|i: int| 0 <= i < self.nodes.len() && self.is_leaf(i as usize) implies (
        #[trigger] other.nodes[i]).input == self.nodes[i].input by {
            assert(self.has(i as usize));
        }
        self.lemma_steady_shaped(other);
        assert forall|c: usize| self.has(c) implies #[trigger] other.settled_input(c)
            == self.settled_input(c) && other.settled_output(c) == self.settled_output(c) by {
            self.lemma_settled_steady(other, c);
        }
    }

    /// After a correction the nodes that are unsettled were so before and
    /// are none of the corrected ones; every step there is a step here.
    pub proof fn lemma_corrected_calmer(self, s: Set<usize>)
        requires
            self.shaped(),
        ensures
            forall|v: usize|
                #[trigger] self.corrected(s).unsettled(v) <==> self.unsettled(v) && !s.contains(v),
            forall|a: usize, b: usize|
                #![trigger self.corrected(s).step(a, b)]
                self.corrected(s).step(a, b) ==> self.step(a, b),
            self.corrected(s).unrest() <= self.unrest(),
    {
        let other = self.corrected(s);
        self.lemma_corrected_steady(s);
        assert forall|v: usize| #[trigger] other.unsettled(v) <==> self.unsettled(v) && !s.contains(
            v,
        ) by {
            if self.has(v) {
                assert(other.settled_input(v) == self.settled_input(v));
            }
        }
        self.lemma_unrest_falls(other, self.nodes.len());
    }

    /// Correcting one set and then another corrects their union.
    pub proof fn lemma_corrected_twice(self, a: Set<usize>, b: Set<usize>)
        requires
            self.shaped(),
        ensures
            self.corrected(a).corrected(b) == self.corrected(a.union(b)),
    {
        self.lemma_corrected_steady(a);
        let mid = self.corrected(a);
        assert forall|i: int| 0 <= i < self.nodes.len() implies mid.corrected(b).nodes[i] == self.corrected(
            a.union(b),
        ).nodes[i] by {
            assert(self.has(i as usize));
            assert(mid.settled_input(i as usize) == self.settled_input(i as usize));
        }
        assert(mid.corrected(b).nodes =~= self.corrected(a.union(b)).nodes);
    }

    /// If `s` is closed, it stays closed when all that settling the
    /// corrected network from `x` gets to is added.
    pub proof fn lemma_reach_extends(self, s: Set<usize>, x: usize)
        requires
            self.shaped(),
            self.closed(s),
        ensures
            self.closed(s.union(self.corrected(s).reach(x))),
    {
        let cur = self.corrected(s);
        let more = cur.reach(x);
        self.lemma_corrected_calmer(s);
        cur.lemma_reach_closed(x);
        assert forall|a: usize, b: usize| s.union(more).contains(a) && self.step(a, b) implies s.union(
            more,
        ).contains(b) by {
            if !s.contains(a) {
                assert(cur.unsettled(a) <==> self.unsettled(a) && !s.contains(a));
                assert(cur.step(a, b));
            }
        }
    }

    /// Two corrections of one network are the same network if each node is
    /// in both sets, in neither, or settled from the start.
    pub proof fn lemma_corrected_same(self, a: Set<usize>, b: Set<usize>)
        requires
            self.shaped(),
            forall|v: usize| self.has(v) && (a.contains(v) != b.contains(v)) ==> !self.unsettled(v),
        ensures
            self.corrected(a) == self.corrected(b),
    {
        assert forall|i: int| 0 <= i < self.nodes.len() implies self.corrected(a).nodes[i] == self.corrected(
            b,
        ).nodes[i] by {
            assert(self.nodes[i].id == i);
            let v = i as usize;
            assert(self.has(v));
            if a.contains(v) != b.contains(v) {
                assert(!self.unsettled(v));
                assert(self.nodes[i].with_input(self.settled_input(v)) == self.nodes[i]);
            }
        }
        assert(self.corrected(a).nodes =~= self.corrected(b).nodes);
    }

    /// A correction is the settling from `c` if it corrects only nodes that
    /// settling from `c` gets to, if with `c` its set is closed, and if `c`
    /// is in the set or was settled from the start.
    pub proof fn lemma_settle_is(self, s: Set<usize>, c: usize)
        requires
            self.shaped(),
            self.has(c),
            forall|v: usize| s.contains(v) ==> self.spreads(c, v),
            self.closed(s.insert(c)),
            !s.contains(c) ==> !self.unsettled(c),
        ensures
            self.corrected(s) == self.settle(c),
    {
        assert forall|v: usize| self.has(v) && (s.contains(v) != self.reach(c).contains(v)) implies !self.unsettled(
            v,
        ) by {
            if self.reach(c).contains(v) {
                let k = choose|k: nat| self.spreads_within(c, v, k);
                self.lemma_spreads_inside(s.insert(c), c, v, k);
            }
        }
        self.lemma_corrected_same(s, self.reach(c));
    }

    /// A leaf is settled, and settling from it changes nothing.
    pub proof fn lemma_settle_leaf(self, c: usize)
        requires
            self.shaped(),
            self.has(c),
            self.is_leaf(c),
        ensures
            !self.unsettled(c),
            self.settle(c) == self,
            self.settled_output(c) == self.nodes[c as int].output_spec(),
    {
        let none = Set::<usize>::empty();
        assert(self.closed(none.insert(c)));
        self.lemma_settle_is(none, c);
        assert(self.corrected(none).nodes =~= self.nodes);
        assert(self.nodes[c as int].with_input(self.settled_input(c)) == self.nodes[c as int]);
    }

    /// Settling a second time changes nothing and presents the same value:
    /// a network that has been settled from `c` is its own settling from
    /// `c`, and the node at `c` presents what it presented the first time.
    pub proof fn lemma_settle_twice(self, c: usize)
        requires
            self.shaped(),
            self.has(c),
        ensures
            self.settle(c).shaped(),
            self.settle(c).settled_output(c) == self.settled_output(c),
            self.settle(c).settle(c) == self.settle(c),
    {
        let once = self.settle(c);
        self.lemma_corrected_steady(self.reach(c));
        self.lemma_corrected_calmer(self.reach(c));
        self.lemma_corrected_twice(self.reach(c), once.reach(c));
        assert forall|v: usize| once.reach(c).contains(v) implies self.reach(c).contains(v) by {
            let k = choose|k: nat| once.spreads_within(c, v, k);
            self.lemma_spreads_wider(once, c, v, k);
        }
        assert(self.reach(c).union(once.reach(c)) =~= self.reach(c));
    }

    /// Settling from `c` gets to every node below `c`.
    pub proof fn lemma_reach_below(self, c: usize, v: usize)
        requires
            self.shaped(),
            self.has(c),
            walks_to(self.edges, c, v),
        ensures
            self.spreads(c, v),
    {
        let k = choose|k: nat| walk_within(self.edges, c, v, k);
        self.lemma_reach_walk(c, v, k);
    }

    proof fn lemma_reach_walk(self, c: usize, v: usize, k: nat)
        requires
            self.shaped(),
            self.has(c),
            walk_within(self.edges, c, v, k),
        ensures
            self.spreads(c, v),
        decreases k,
    {
        if self.edges[c].contains(v) {
            assert(self.step(c, v));
            self.lemma_spreads_self(v);
            self.lemma_spreads_step(c, v, v);
        } else {
            let m = choose|m: usize|
                self.edges[c].contains(m) && walk_within(self.edges, m, v, (k - 1) as nat);
            assert(self.step(c, m));
            self.lemma_reach_walk(m, v, (k - 1) as nat);
            self.lemma_spreads_step(c, m, v);
        }
    }

    /// After settling from `c`, the node at `c` and every node below it are
    /// driven by their settled inputs, and so is every other node that
    /// settling got to.
    pub proof fn lemma_settle_settles(self, c: usize, v: usize)
        requires
            self.shaped(),
            self.has(c),
            v == c || walks_to(self.edges, c, v) || self.spreads(c, v),
        ensures
            self.has(v),
            !self.settle(c).unsettled(v),
            self.settle(c).nodes[v as int] == self.nodes[v as int].with_input(self.settled_input(v)),
    {
        if v == c {
            self.lemma_spreads_self(c);
        } else if walks_to(self.edges, c, v) {
            self.lemma_reach_below(c, v);
        }
        let k = choose|k: nat| self.spreads_within(c, v, k);
        self.lemma_spreads_has(c, v, k);
        self.lemma_corrected_calmer(self.reach(c));
        assert(self.reach(c).contains(v));
        assert(self.nodes[v as int].id == v);
    }
}

} // verus!
