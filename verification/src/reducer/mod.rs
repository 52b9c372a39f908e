use vstd::prelude::*;
use btree_dag::BTreeDag;

pub mod api;
pub mod codec;
pub mod dag;
pub mod model;
pub mod settling;
pub mod shape;
pub mod surface;
pub mod text;

use crate::error::Error;
use api::{
    AddGate, Configuration, Input, Output, Program, Reconfigure, Reinput, RemoveShort, Reprogram,
    Short, Sound, Transition,
};
use shape::{lemma_ascending_cover, lemma_grow_acyclic, lemma_join_acyclic, lemma_part_acyclic};
use dag::{
    ascending, dag_add_edge, dag_add_vertex, dag_clone, dag_connections, dag_edges, dag_new,
    dag_remove_edge, dag_vertices, levelled, no_edges,
};
use model::{is_default, lawful_eq, Network};

verus! {

/// A node of a network: its place in creation order, the value that drives
/// it, the value that input is compared with, and the seed it starts from
/// when it combines its children.
#[derive(PartialEq, PartialOrd, Ord, Eq, Copy, Debug)]
pub struct Contact<T> {
    pub id: usize,
    pub input: T,
    pub configuration: T,
    pub program: T,
}

impl<T: Copy> Clone for Contact<T> {
    fn clone(&self) -> (c: Self)
        ensures
            c == *self,
    {
        *self
    }
}

impl<T> Contact<T> {
    /// This node driven by `v`.
    pub open spec fn with_input(self, v: T) -> Self {
        Contact { id: self.id, input: v, configuration: self.configuration, program: self.program }
    }

    /// This node compared with `v`.
    pub open spec fn with_configuration(self, v: T) -> Self {
        Contact { id: self.id, input: self.input, configuration: v, program: self.program }
    }

    /// This node seeded with `v`.
    pub open spec fn with_program(self, v: T) -> Self {
        Contact { id: self.id, input: self.input, configuration: self.configuration, program: v }
    }
}

impl<T> Sound for Contact<T> {
    open spec fn sound(&self) -> bool {
        true
    }
}

impl<T: Copy> Input<T> for Contact<T> {
    fn input(&self) -> (v: T)
        ensures
            v == self.input,
    {
        self.input
    }
}

impl<T: Copy> Configuration<T> for Contact<T> {
    fn configuration(&self) -> (v: T)
        ensures
            v == self.configuration,
    {
        self.configuration
    }
}

impl<T: Copy> Program<T> for Contact<T> {
    fn program(&self) -> (v: T)
        ensures
            v == self.program,
    {
        self.program
    }
}

impl<T: Copy> Reinput<T> for Contact<T> {
    type Error = Error;

    fn reinput(&mut self, i: T) -> (r: Result<(), Error>)
        ensures
            r.is_ok(),
            *final(self) == old(self).with_input(i),
    {
        self.input = i;
        Ok(())
    }
}

impl<T: Copy> Reconfigure<T> for Contact<T> {
    type Error = Error;

    fn reconfigure(&mut self, c: T) -> (r: Result<(), Error>)
        ensures
            r.is_ok(),
            *final(self) == old(self).with_configuration(c),
    {
        self.configuration = c;
        Ok(())
    }
}

impl<T: Copy> Reprogram<T> for Contact<T> {
    type Error = Error;

    fn reprogram(&mut self, p: T) -> (r: Result<(), Error>)
        ensures
            r.is_ok(),
            *final(self) == old(self).with_program(p),
    {
        self.program = p;
        Ok(())
    }
}

impl Transition<bool> for bool {
    open spec fn transition_spec(&self) -> bool {
        !*self
    }

    fn transition(&self) -> (t: bool) {
        !*self
    }
}

impl Output<bool> for Contact<bool> {
    type Error = Error;

    open spec fn output_spec(&self) -> bool {
        self.input != self.configuration
    }

    fn output(&mut self) -> (t: bool)
        ensures
            *final(self) == *old(self),
    {
        self.input != self.configuration
    }
}

/// A network of nodes over a directed acyclic graph. A node's children are
/// the nodes that its edges lead to; the node at place 0 is the root.
#[derive(PartialEq, Eq, Debug)]
pub struct BTreeReducer<T> {
    dag: BTreeDag<usize>,
    nodes: Vec<Contact<T>>,
}

impl<T> View for BTreeReducer<T> {
    type V = Network<T>;

    closed spec fn view(&self) -> Network<T> {
        Network { nodes: self.nodes@, edges: dag_edges(self.dag) }
    }
}

impl<T: Copy> Clone for BTreeReducer<T> {
    /// A network with the same nodes and edges.
    fn clone(&self) -> (r: Self)
        ensures
            r@ == self@,
    {
        let mut nodes: Vec<Contact<T>> = Vec::new();
        let mut i: usize = 0;
        while i < self.nodes.len()
            invariant
                i <= self.nodes.len(),
                nodes@ == self.nodes@.take(i as int),
            decreases self.nodes.len() - i,
        {
            nodes.push(self.nodes[i]);
            assert(self.nodes@.take(i + 1) =~= self.nodes@.take(i as int).push(self.nodes@[i as int]));
            i += 1;
        }
        assert(self.nodes@.take(i as int) =~= self.nodes@);
        BTreeReducer { dag: dag_clone(&self.dag), nodes }
    }
}

impl<T: PartialEq> Sound for BTreeReducer<T> {
    /// The nodes and the graph agree, and `==` on `T` tells whether two
    /// values are the same.
    open spec fn sound(&self) -> bool {
        self@.shaped() && lawful_eq::<T>()
    }
}

/// Whether `c` is one of `v`.
fn among(v: &Vec<usize>, c: usize) -> (found: bool)
    ensures
        found == v@.contains(c),
{
    let mut i: usize = 0;
    while i < v.len()
        invariant
            i <= v.len(),
            forall|j: int| 0 <= j < i ==> v@[j] != c,
        decreases v.len() - i,
    {
        if v[i] == c {
            return true;
        }
        i += 1;
    }
    false
}

impl<T: Copy + Default + PartialEq + Transition<T>> BTreeReducer<T> where Contact<T>: Output<T> {
    /// The places of all nodes, in ascending order.
    pub(crate) fn all_places(&self) -> (places: Vec<usize>)
        requires
            self.sound(),
        ensures
            places@ == self@.places(),
            ascending(places@),
            forall|j: int| 0 <= j < places@.len() ==> self@.has(#[trigger] places@[j]),
    {
        let places = dag_vertices(&self.dag);
        let n = self.nodes.len();
        proof {
            assert forall|c: usize| places@.contains(c) <==> c < n by {
                assert(places@.to_set().contains(c) <==> places@.contains(c));
                assert(self@.edges.dom().contains(c) <==> self@.has(c));
            }
            lemma_ascending_cover(places@, n as nat);
            assert(places@ =~= self@.places());
        }
        places
    }

    /// The children of the node at `c`, in ascending order.
    fn children(&self, c: usize) -> (kids: Vec<usize>)
        requires
            self.sound(),
            self@.has(c),
        ensures
            ascending(kids@),
            forall|k: usize| kids@.contains(k) <==> self@.edges[c].contains(k),
            kids@.len() == 0 <==> self@.is_leaf(c),
    {
        assert(self@.edges.dom().contains(c));
        let kids = match dag_connections(&self.dag, c) {
            Some(kids) => kids,
            None => Vec::new(),
        };
        proof {
            assert forall|k: usize| kids@.contains(k) <==> self@.edges[c].contains(k) by {
                assert(kids@.to_set().contains(k) <==> kids@.contains(k));
            }
            if kids@.len() > 0 {
                assert(kids@.contains(kids@[0]));
            }
        }
        kids
    }

    /// Settles the network from the node at `c` and returns what that node
    /// then presents. Each child is settled in turn; the first child that
    /// presents another value than the seed makes the seed take its
    /// transition, once; a node driven by another value than the outcome is
    /// corrected, and the correction is carried to its parents.
    fn resolve_branch(&mut self, c: usize) -> (t: T)
        requires
            old(self).sound(),
            old(self)@.has(c),
        ensures
            final(self).sound(),
            final(self)@ == old(self)@.settle(c),
            t == old(self)@.settled_output(c),
        decreases old(self)@.unrest(), (old(self)@.levels())(c),
    {
        let ghost before = self@;
        let kids = self.children(c);
        if kids.len() == 0 {
            proof {
                before.lemma_settle_leaf(c);
            }
            let mut leaf = self.nodes[c];
            return leaf.output();
        }
        let seed = self.nodes[c].program;
        let mut assumed = seed;
        let mut flipped = false;
        let ghost mut done = Set::<usize>::empty();
        proof {
            before.lemma_levels();
            assert(before.corrected(done).nodes =~= before.nodes);
        }
        let mut i: usize = 0;
        while i < kids.len()
            invariant
                i <= kids.len(),
                self.sound(),
                before == old(self)@,
                before.shaped(),
                before.has(c),
                seed == before.nodes[c as int].program,
                forall|k: usize| kids@.contains(k) <==> before.edges[c].contains(k),
                self@ == before.corrected(done),
                before.closed(done),
                forall|v: usize| done.contains(v) ==> before.spreads(c, v),
                forall|j: int| 0 <= j < i ==> done.contains(kids@[j]),
                flipped <==> exists|j: int| 0 <= j < i && before.settled_output(kids@[j]) != seed,
                assumed == (if flipped {
                    seed.transition_spec()
                } else {
                    seed
                }),
            decreases kids.len() - i,
        {
            let k = kids[i];
            let ghost now = self@;
            proof {
                assert(kids@.contains(k));
                assert(before.edges[c].contains(k));
                assert(before.edges.dom().contains(c));
                before.lemma_levels();
                before.lemma_corrected_steady(done);
                before.lemma_corrected_calmer(done);
                before.lemma_steady_shaped(now);
                assert((now.levels())(k) < (before.levels())(c));
            }
            let t = self.resolve_branch(k);
            proof {
                before.lemma_corrected_twice(done, now.reach(k));
                before.lemma_reach_extends(done, k);
                assert forall|v: usize| now.reach(k).contains(v) implies before.spreads(c, v) by {
                    let n = choose|n: nat| now.spreads_within(k, v, n);
                    before.lemma_spreads_wider(now, k, v, n);
                    assert(before.step(c, k));
                    before.lemma_spreads_step(c, k, v);
                }
                now.lemma_spreads_self(k);
                assert(t == before.settled_output(k));
                done = done.union(now.reach(k));
            }
            if !flipped && t != assumed {
                assumed = assumed.transition();
                flipped = true;
            }
            i += 1;
        }
        let node = self.nodes[c];
        proof {
            before.lemma_corrected_steady(done);
            before.lemma_corrected_calmer(done);
            assert(!before.is_leaf(c)) by {
                assert(kids@.contains(kids@[0]));
            }
            if flipped {
                let j = choose|j: int| 0 <= j < i && before.settled_output(kids@[j]) != seed;
                assert(kids@.contains(kids@[j]));
                assert(before.edges[c].contains(kids@[j]));
            } else {
                assert forall|k: usize| before.edges[c].contains(k) implies before.nodes[k as int].with_input(
                    before.settled_input(k),
                ).output_spec() == seed by {
                    assert(kids@.contains(k));
                    let j = choose|j: int| 0 <= j < kids@.len() && kids@[j] == k;
                    assert(before.settled_output(kids@[j]) == seed);
                }
            }
            assert(assumed == before.settled_input(c));
            assert forall|b: usize| before.edges[c].contains(b) implies done.contains(b) by {
                assert(kids@.contains(b));
                let j = choose|j: int| 0 <= j < kids@.len() && kids@[j] == b;
                assert(done.contains(kids@[j]));
            }
        }
        if node.input != assumed {
            let mended = Contact {
                id: node.id,
                input: assumed,
                configuration: node.configuration,
                program: node.program,
            };
            let ghost now = self@;
            let ghost next = now.replace(c, mended);
            proof {
                assert(now.unsettled(c));
                assert(before.unsettled(c) && !done.contains(c));
                assert(next.nodes =~= before.corrected(done.insert(c)).nodes);
                assert(next == before.corrected(done.insert(c)));
                before.lemma_corrected_steady(done.insert(c));
                before.lemma_corrected_calmer(done.insert(c));
                before.lemma_unrest_drops(next, before.nodes.len(), c);
                assert((before.levels())(c) > (before.levels())(kids@[0])) by {
                    assert(kids@.contains(kids@[0]));
                    assert(before.edges[c].contains(kids@[0]));
                    assert(before.edges.dom().contains(c));
                }
            }
            self.rewire(c, mended);
            proof {
                let above = next.reach_above(c);
                let all = done.insert(c).union(above);
                before.lemma_corrected_twice(done.insert(c), above);
                assert forall|v: usize| all.contains(v) implies before.spreads(c, v) by {
                    if above.contains(v) {
                        let p = choose|p: usize|
                            next.has(p) && next.edges[p].contains(c) && next.spreads(p, v);
                        let n = choose|n: nat| next.spreads_within(p, v, n);
                        before.lemma_spreads_wider(next, p, v, n);
                        assert(before.step(c, p));
                        before.lemma_spreads_step(c, p, v);
                    } else if v == c {
                        before.lemma_spreads_self(c);
                    }
                }
                assert forall|a: usize, b: usize| all.contains(a) && before.step(a, b) implies all.contains(
                    b,
                ) by {
                    if done.contains(a) {
                        assert(done.contains(b));
                    } else if a == c {
                        if before.edges[c].contains(b) {
                            assert(done.contains(b));
                        } else {
                            next.lemma_spreads_self(b);
                            assert(next.has(b) && next.edges[b].contains(c) && next.spreads(b, b));
                            assert(above.contains(b));
                        }
                    } else {
                        let p = choose|p: usize|
                            next.has(p) && next.edges[p].contains(c) && next.spreads(p, a);
                        assert(next.unsettled(a) <==> before.unsettled(a) && !done.insert(c).contains(a));
                        assert(next.step(a, b));
                        next.lemma_reach_closed(p);
                        assert(next.reach(p).contains(a));
                        assert(next.reach(p).contains(b));
                        assert(next.has(p) && next.edges[p].contains(c) && next.spreads(p, b));
                        assert(above.contains(b));
                    }
                }
                assert(all.insert(c) =~= all);
                before.lemma_settle_is(all, c);
            }
            let mut probe = mended;
            let t = probe.output();
            proof {
                assert(mended == before.nodes[c as int].with_input(before.settled_input(c)));
            }
            t
        } else {
            proof {
                assert(!self@.unsettled(c));
                assert forall|a: usize, b: usize| done.insert(c).contains(a) && before.step(
                    a,
                    b,
                ) implies done.insert(c).contains(b) by {
                    if done.contains(a) {
                        assert(done.contains(b));
                    } else {
                        assert(!before.unsettled(c));
                        assert(before.edges[c].contains(b));
                    }
                }
                before.lemma_settle_is(done, c);
                assert(node == before.nodes[c as int].with_input(before.settled_input(c)));
            }
            let mut probe = node;
            probe.output()
        }
    }

    /// Puts `g` in the place of the node at `c` and settles the network from
    /// each parent of `c`, in ascending order.
    fn rewire(&mut self, c: usize, g: Contact<T>)
        requires
            old(self).sound(),
            old(self)@.has(c),
            g.id == c,
        ensures
            final(self).sound(),
            final(self)@ == old(self)@.replace(c, g).settle_above(c),
        decreases old(self)@.replace(c, g).unrest() + 1, 0nat,
    {
        let ghost before = self@;
        self.nodes.set(c, g);
        let ghost base = self@;
        let ghost mut done = Set::<usize>::empty();
        proof {
            assert(base == before.replace(c, g));
            assert forall|v: usize| #[trigger] base.edges.dom().contains(v) <==> base.has(v) by {
                assert(before.edges.dom().contains(v) <==> before.has(v));
            }
            assert(base.shaped());
            assert(base.corrected(done).nodes =~= base.nodes);
        }
        let places = self.all_places();
        let n = places.len();
        let mut p: usize = 0;
        while p < n
            invariant
                p <= n,
                n == base.nodes.len(),
                places@ == base.places(),
                self.sound(),
                before == old(self)@,
                base == before.replace(c, g),
                base.shaped(),
                base.has(c),
                self@ == base.corrected(done),
                base.closed(done),
                forall|v: usize| done.contains(v) ==> base.reach_above(c).contains(v),
                forall|q: usize| q < p && base.edges[q].contains(c) ==> done.contains(q),
            decreases n - p,
        {
            let ghost now = self@;
            proof {
                base.lemma_corrected_steady(done);
                base.lemma_corrected_calmer(done);
            }
            let parent = places[p];
            let kids = self.children(parent);
            if among(&kids, c) {
                self.resolve_branch(parent);
                proof {
                    base.lemma_corrected_twice(done, now.reach(parent));
                    base.lemma_reach_extends(done, parent);
                    assert forall|v: usize| now.reach(parent).contains(v) implies base.reach_above(
                        c,
                    ).contains(v) by {
                        let m = choose|m: nat| now.spreads_within(parent, v, m);
                        base.lemma_spreads_wider(now, parent, v, m);
                        assert(base.has(parent) && base.edges[parent].contains(c) && base.spreads(
                            parent,
                            v,
                        ));
                    }
                    now.lemma_spreads_self(parent);
                    done = done.union(now.reach(parent));
                }
            }
            p += 1;
        }
        proof {
            assert forall|v: usize| base.reach_above(c).contains(v) implies done.contains(v) by {
                let q = choose|q: usize| base.has(q) && base.edges[q].contains(c) && base.spreads(q, v);
                let m = choose|m: nat| base.spreads_within(q, v, m);
                base.lemma_spreads_inside(done, q, v, m);
            }
            assert(done =~= base.reach_above(c));
        }
    }
}

impl<T: Copy + Default + PartialEq + Transition<T>> BTreeReducer<T> where Contact<T>: Output<T> {
    /// A network of one node, the root: place 0, each value a default of
    /// `T`, no edges.
    pub fn new() -> (r: Self)
        ensures
            r@.shaped(),
            lawful_eq::<T>() ==> r.sound(),
            r@.nodes.len() == 1,
            is_default(r@.nodes[0].input),
            is_default(r@.nodes[0].configuration),
            is_default(r@.nodes[0].program),
            r@.edges == no_edges().insert(0, Set::empty()),
    {
        let mut dag = dag_new();
        dag_add_vertex(&mut dag, 0);
        let mut nodes: Vec<Contact<T>> = Vec::new();
        nodes.push(
            Contact { id: 0, input: T::default(), configuration: T::default(), program: T::default() },
        );
        let r = BTreeReducer { dag, nodes };
        proof {
            let level = |v: usize| 0nat;
            assert(levelled(r@.edges, level));
        }
        r
    }

    /// The root: the node at place 0.
    pub fn root(&self) -> (c: Contact<T>)
        requires
            self.sound(),
        ensures
            c == self@.nodes[0],
            self@.holds(c),
    {
        self.nodes[0]
    }

    /// Whether `g` is one of the nodes, as it now stands.
    pub fn is_held(&self, g: &Contact<T>) -> (held: bool)
        requires
            self.sound(),
        ensures
            held == self@.holds(*g),
    {
        if g.id >= self.nodes.len() {
            return false;
        }
        let node = self.nodes[g.id];
        node.input == g.input && node.configuration == g.configuration && node.program == g.program
    }

    /// Adds an edge from `x` to `y`, two nodes that are already there.
    /// Nothing is settled.
    pub fn short(&mut self, x: Contact<T>, y: Contact<T>) -> (r: Result<(), Error>)
        requires
            old(self).sound(),
        ensures
            final(self).sound(),
            r == old(self)@.may_join(x, y),
            final(self)@ == (if r.is_ok() {
                old(self)@.joined(x.id, y.id)
            } else {
                old(self)@
            }),
    {
        if !self.is_held(&x) || !self.is_held(&y) {
            return Err(Error::VertexAbsent);
        }
        let kids = self.children(x.id);
        if among(&kids, y.id) {
            return Err(Error::DuplicateEdge);
        }
        if x.id == y.id {
            return Err(Error::Cycle);
        }
        let ghost before = self@;
        assert(before.edges.dom().contains(x.id) && before.edges.dom().contains(y.id));
        let r = dag_add_edge(&mut self.dag, x.id, y.id);
        proof {
            if r.is_ok() {
                lemma_join_acyclic(before.edges, x.id, y.id);
                assert forall|c: usize| #[trigger] self@.edges.dom().contains(c) <==> self@.has(c) by {
                    assert(before.edges.dom().contains(c) <==> before.has(c));
                }
                assert forall|a: usize, b: usize|
                    #![trigger self@.edges[a].contains(b)]
                    self@.has(a) && self@.edges[a].contains(b) implies self@.has(b) by {
                    if !(a == x.id && b == y.id) {
                        assert(before.edges[a].contains(b));
                    }
                }
            }
        }
        r
    }

    /// Removes the edge from `x` to `y`. Nothing is settled.
    pub fn remove_short(&mut self, x: Contact<T>, y: Contact<T>) -> (r: Result<(), Error>)
        requires
            old(self).sound(),
        ensures
            final(self).sound(),
            r == old(self)@.may_part(x, y),
            final(self)@ == (if r.is_ok() {
                old(self)@.parted(x.id, y.id)
            } else {
                old(self)@
            }),
    {
        if !self.is_held(&x) || !self.is_held(&y) {
            return Err(Error::VertexAbsent);
        }
        let kids = self.children(x.id);
        if !among(&kids, y.id) {
            return Err(Error::MissingEdge);
        }
        let ghost before = self@;
        assert(before.edges.dom().contains(x.id) && before.edges.dom().contains(y.id));
        let r = dag_remove_edge(&mut self.dag, x.id, y.id);
        proof {
            lemma_part_acyclic(before.edges, x.id, y.id);
            assert forall|c: usize| #[trigger] self@.edges.dom().contains(c) <==> self@.has(c) by {
                assert(before.edges.dom().contains(c) <==> before.has(c));
            }
            assert forall|a: usize, b: usize|
                #![trigger self@.edges[a].contains(b)]
                self@.has(a) && self@.edges[a].contains(b) implies self@.has(b) by {
                assert(before.edges[a].contains(b));
            }
        }
        r
    }

    /// Adds `leaf` as a new last node below the node at `p` and settles the
    /// network from the root.
    pub(crate) fn graft(&mut self, p: usize, leaf: Contact<T>)
        requires
            old(self).sound(),
            old(self)@.has(p),
            leaf.id == old(self)@.nodes.len(),
        ensures
            final(self).sound(),
            final(self)@ == old(self)@.grown(p, leaf).settle(0),
            final(self)@.holds(leaf),
    {
        let ghost before = self@;
        let n = self.nodes.len();
        proof {
            assert(before.edges.dom().contains(p));
            assert(!before.edges.dom().contains(n)) by {
                assert(before.edges.dom().contains(n) <==> before.has(n));
            }
            lemma_grow_acyclic(before.edges, p, n);
        }
        dag_add_vertex(&mut self.dag, n);
        let r = dag_add_edge(&mut self.dag, p, n);
        self.nodes.push(leaf);
        proof {
            let grown = before.grown(p, leaf);
            assert(r.is_ok());
            assert(self@ == grown);
            assert forall|c: usize| #[trigger] grown.edges.dom().contains(c) <==> grown.has(c) by {
                assert(before.edges.dom().contains(c) <==> before.has(c));
            }
            assert forall|a: usize, b: usize|
                #![trigger grown.edges[a].contains(b)]
                grown.has(a) && grown.edges[a].contains(b) implies grown.has(b) by {
                if a != n && b != n {
                    assert(before.edges[a].contains(b));
                }
            }
            assert(grown.shaped());
            grown.lemma_settle_leaf(n);
            grown.lemma_corrected_steady(grown.reach(0));
        }
        self.resolve_branch(0);
    }

    /// Puts `u` in the place of `p` and settles the network from each
    /// parent of that place. Refused when `p` is none of the nodes as they
    /// now stand, or when `u` names another place.
    pub fn update(&mut self, p: Contact<T>, u: Contact<T>) -> (r: Result<(), Error>)
        requires
            old(self).sound(),
        ensures
            final(self).sound(),
            r == (if old(self)@.holds(p) && u.id == p.id {
                Ok(())
            } else {
                Err(Error::VertexAbsent)
            }),
            final(self)@ == (if r.is_ok() {
                old(self)@.updated(p.id, u)
            } else {
                old(self)@
            }),
    {
        if !self.is_held(&p) || u.id != p.id {
            return Err(Error::VertexAbsent);
        }
        self.rewire(p.id, u);
        Ok(())
    }
}

impl<T: Copy + Default + PartialEq + Transition<T>> AddGate<Contact<T>> for BTreeReducer<T> where
    Contact<T>: Output<T>,
 {
    open spec fn holds(&self, g: Contact<T>) -> bool {
        self@.holds(g)
    }

    /// Adds a new leaf below `g`: the next place, each value a default of
    /// `T`. The network is then settled from the root.
    fn add_gate(&mut self, g: Contact<T>) -> (leaf: Contact<T>)
        ensures
            leaf.id == old(self)@.nodes.len(),
            is_default(leaf.input),
            is_default(leaf.configuration),
            is_default(leaf.program),
            final(self)@ == old(self)@.grown(g.id, leaf).settle(0),
            final(self)@.holds(leaf),
    {
        let leaf = Contact {
            id: self.nodes.len(),
            input: T::default(),
            configuration: T::default(),
            program: T::default(),
        };
        self.graft(g.id, leaf);
        leaf
    }
}

impl<T: Copy + Default + PartialEq + Transition<T>> Output<T> for BTreeReducer<T> where
    Contact<T>: Output<T>,
 {
    type Error = Error;

    /// What the root presents once everything below it has settled.
    open spec fn output_spec(&self) -> T {
        self@.settled_output(0)
    }

    /// Settles the network from the root and returns what the root then
    /// presents.
    fn output(&mut self) -> (t: T)
        ensures
            final(self)@ == old(self)@.settle(0),
    {
        self.resolve_branch(0)
    }
}

impl<T: Copy + Default + PartialEq + Transition<T>> Default for BTreeReducer<T> where
    Contact<T>: Output<T>,
 {
    /// A network of one node, as `new` makes it.
    fn default() -> (r: Self)
        ensures
            r@.shaped(),
            lawful_eq::<T>() ==> r.sound(),
            r@.nodes.len() == 1,
            is_default(r@.nodes[0].input),
            is_default(r@.nodes[0].configuration),
            is_default(r@.nodes[0].program),
            r@.edges == no_edges().insert(0, Set::empty()),
    {
        Self::new()
    }
}

impl<T: Copy + Default + PartialEq + Transition<T>> Short<Contact<T>> for BTreeReducer<T> where
    Contact<T>: Output<T>,
 {
    type Error = Error;

    /// Adds an edge from `x` to `y`, as the method of the same name does.
    fn short(&mut self, x: Contact<T>, y: Contact<T>) -> (r: Result<(), Error>)
        ensures
            r == old(self)@.may_join(x, y),
            final(self)@ == (if r.is_ok() {
                old(self)@.joined(x.id, y.id)
            } else {
                old(self)@
            }),
    {
        BTreeReducer::short(self, x, y)
    }
}

impl<T: Copy + Default + PartialEq + Transition<T>> RemoveShort<Contact<T>> for BTreeReducer<
    T,
> where Contact<T>: Output<T> {
    type Error = Error;

    /// Removes the edge from `x` to `y`, as the method of the same name
    /// does.
    fn remove_short(&mut self, x: Contact<T>, y: Contact<T>) -> (r: Result<(), Error>)
        ensures
            r == old(self)@.may_part(x, y),
            final(self)@ == (if r.is_ok() {
                old(self)@.parted(x.id, y.id)
            } else {
                old(self)@
            }),
    {
        BTreeReducer::remove_short(self, x, y)
    }
}

} // verus!
