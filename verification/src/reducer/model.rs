use vstd::prelude::*;
use vstd::std_specs::cmp::PartialEqSpec;
use super::api::{Output, Transition};
use super::dag::{acyclic, levelled, walks_to, with_edge, without_edge};
use crate::error::Error;
use super::Contact;

verus! {

/// `==` on `T` tells whether two values are the same.
pub open spec fn lawful_eq<T: PartialEq>() -> bool {
    &&& T::obeys_eq_spec()
    &&& forall|a: T, b: T| #[trigger] a.eq_spec(&b) <==> (a == b)
}

/// `v` is a value that `T::default()` may return.
pub open spec fn is_default<T: Default>(v: T) -> bool {
    call_ensures(T::default, (), v)
}

/// A network as a mathematical value: its nodes in creation order, and for
/// each node the set of nodes that its edges lead to, its children.
pub struct Network<T> {
    pub nodes: Seq<Contact<T>>,
    pub edges: Map<usize, Set<usize>>,
}

impl<T> Network<T> {
    /// `c` is the place of one of the nodes.
    pub open spec fn has(self, c: usize) -> bool {
        c < self.nodes.len()
    }

    /// `g` is one of the nodes, as it now stands.
    pub open spec fn holds(self, g: Contact<T>) -> bool {
        self.has(g.id) && self.nodes[g.id as int] == g
    }

    /// The node at `c` has no children.
    pub open spec fn is_leaf(self, c: usize) -> bool {
        forall|k: usize| !self.edges[c].contains(k)
    }

    /// The nodes are numbered by their places, the graph has exactly the
    /// nodes as its vertices, every edge leads to a node, and no walk along
    /// edges returns to where it began.
    pub open spec fn shaped(self) -> bool {
        &&& self.nodes.len() >= 1
        &&& forall|i: int| 0 <= i < self.nodes.len() ==> (#[trigger] self.nodes[i]).id == i
        &&& forall|c: usize| #[trigger] self.edges.dom().contains(c) <==> self.has(c)
        &&& forall|a: usize, b: usize|
            #![trigger self.edges[a].contains(b)]
            self.has(a) && self.edges[a].contains(b) ==> self.has(b)
        &&& acyclic(self.edges)
    }

    /// A numbering of the nodes that falls along every edge.
    pub open spec fn levels(self) -> spec_fn(usize) -> nat {
        choose|level: spec_fn(usize) -> nat| levelled(self.edges, level)
    }

    /// The network with the node at `c` replaced by `g`.
    pub open spec fn replace(self, c: usize, g: Contact<T>) -> Self {
        Network { nodes: self.nodes.update(c as int, g), edges: self.edges }
    }

    /// The network with `leaf` as a new last node, and an edge to it from
    /// the node at `p`.
    pub open spec fn grown(self, p: usize, leaf: Contact<T>) -> Self {
        Network {
            nodes: self.nodes.push(leaf),
            edges: with_edge(self.edges.insert(leaf.id, Set::empty()), p, leaf.id),
        }
    }

    /// The network with an edge from the node at `x` to the node at `y`.
    pub open spec fn joined(self, x: usize, y: usize) -> Self {
        Network { nodes: self.nodes, edges: with_edge(self.edges, x, y) }
    }

    /// The network without the edge from the node at `x` to the node at `y`.
    pub open spec fn parted(self, x: usize, y: usize) -> Self {
        Network { nodes: self.nodes, edges: without_edge(self.edges, x, y) }
    }

    /// What becomes of a request to add an edge from `x` to `y`: both must
    /// be nodes as they now stand, the edge must not be there, and it must
    /// not close a cycle.
    pub open spec fn may_join(self, x: Contact<T>, y: Contact<T>) -> Result<(), Error> {
        if !self.holds(x) || !self.holds(y) {
            Err(Error::VertexAbsent)
        } else if self.edges[x.id].contains(y.id) {
            Err(Error::DuplicateEdge)
        } else if x.id == y.id || walks_to(self.edges, y.id, x.id) {
            Err(Error::Cycle)
        } else {
            Ok(())
        }
    }

    /// What becomes of a request to remove the edge from `x` to `y`: both
    /// must be nodes as they now stand, and the edge must be there.
    pub open spec fn may_part(self, x: Contact<T>, y: Contact<T>) -> Result<(), Error> {
        if !self.holds(x) || !self.holds(y) {
            Err(Error::VertexAbsent)
        } else if !self.edges[x.id].contains(y.id) {
            Err(Error::MissingEdge)
        } else {
            Ok(())
        }
    }

    /// The places of the leaves among the first `m` nodes, in ascending
    /// order.
    pub open spec fn leaves_among(self, m: nat) -> Seq<usize>
        decreases m,
    {
        if m == 0 {
            Seq::empty()
        } else {
            let rest = self.leaves_among((m - 1) as nat);
            if self.is_leaf((m - 1) as usize) {
                rest.push((m - 1) as usize)
            } else {
                rest
            }
        }
    }

    /// The places of the leaves, in ascending order.
    pub open spec fn leaves(self) -> Seq<usize> {
        self.leaves_among(self.nodes.len())
    }

    /// The places of all nodes, in ascending order.
    pub open spec fn places(self) -> Seq<usize> {
        Seq::new(self.nodes.len(), |i: int| i as usize)
    }

    /// The values that drive the leaves, in ascending order of place.
    pub open spec fn inputs(self) -> Seq<T> {
        self.leaves().map_values(|c: usize| self.nodes[c as int].input)
    }

    /// The configurations of all nodes, in ascending order of place.
    pub open spec fn configurations(self) -> Seq<T> {
        self.nodes.map_values(|g: Contact<T>| g.configuration)
    }

    /// The programs of all nodes, in ascending order of place.
    pub open spec fn programs(self) -> Seq<T> {
        self.nodes.map_values(|g: Contact<T>| g.program)
    }
}

/// One of the three values that a node holds.
#[derive(PartialEq, Eq, Structural, Clone, Copy, Debug)]
pub enum Field {
    Input,
    Configuration,
    Program,
}

impl<T> Contact<T> {
    /// The value of this node's `field`.
    pub open spec fn get(self, field: Field) -> T {
        match field {
            Field::Input => self.input,
            Field::Configuration => self.configuration,
            Field::Program => self.program,
        }
    }

    /// This node with `v` as its `field`.
    pub open spec fn with(self, field: Field, v: T) -> Self {
        match field {
            Field::Input => self.with_input(v),
            Field::Configuration => self.with_configuration(v),
            Field::Program => self.with_program(v),
        }
    }
}

impl<T> Network<T> where T: Transition<T>, Contact<T>: Output<T> {
    /// The input that the node at `c` has once everything below it has
    /// settled. A leaf keeps its input. Any other node starts from its
    /// program, and takes the program's transition if some child, settled,
    /// presents another value than the program.
    pub open spec fn settled_input(self, c: usize) -> T
        decreases (self.levels())(c),
        when self.shaped() && self.has(c)
    {
        let seed = self.nodes[c as int].program;
        if self.is_leaf(c) {
            self.nodes[c as int].input
        } else if forall|k: usize|
            self.edges[c].contains(k) ==> self.nodes[k as int].with_input(
                self.settled_input(k),
            ).output_spec() == seed {
            seed
        } else {
            seed.transition_spec()
        }
    }

    /// What the node at `c` presents once it has settled.
    pub open spec fn settled_output(self, c: usize) -> T {
        self.nodes[c as int].with_input(self.settled_input(c)).output_spec()
    }

    /// The node at `c` is driven by another value than its settled input.
    pub open spec fn unsettled(self, c: usize) -> bool {
        self.has(c) && self.nodes[c as int].input != self.settled_input(c)
    }

    /// How many of the first `m` nodes are unsettled.
    pub open spec fn unsettled_among(self, m: nat) -> nat
        decreases m,
    {
        if m == 0 {
            0
        } else {
            let rest = self.unsettled_among((m - 1) as nat);
            if self.unsettled((m - 1) as usize) {
                rest + 1
            } else {
                rest
            }
        }
    }

    /// How many nodes are unsettled.
    pub open spec fn unrest(self) -> nat {
        self.unsettled_among(self.nodes.len())
    }

    /// Settling moves on from `a` to `b`: down to any child, and up from a
    /// node that had to be corrected to each of its parents.
    pub open spec fn step(self, a: usize, b: usize) -> bool {
        &&& self.has(a)
        &&& self.has(b)
        &&& (self.edges[a].contains(b) || (self.edges[b].contains(a) && self.unsettled(a)))
    }

    /// Settling from `c` gets to `v` in at most `k` steps.
    pub open spec fn spreads_within(self, c: usize, v: usize, k: nat) -> bool
        decreases k,
    {
        ||| (v == c && self.has(c))
        ||| (k > 0 && exists|m: usize|
            #![trigger self.step(c, m)]
            self.step(c, m) && self.spreads_within(m, v, (k - 1) as nat))
    }

    /// Settling from `c` gets to `v`.
    pub open spec fn spreads(self, c: usize, v: usize) -> bool {
        exists|k: nat| self.spreads_within(c, v, k)
    }

    /// The nodes that settling from `c` gets to.
    pub open spec fn reach(self, c: usize) -> Set<usize> {
        Set::new(|v: usize| self.spreads(c, v))
    }

    /// The nodes that settling from any parent of `c` gets to.
    pub open spec fn reach_above(self, c: usize) -> Set<usize> {
        Set::new(
            |v: usize|
                exists|p: usize|
                    #![trigger self.edges[p].contains(c)]
                    self.has(p) && self.edges[p].contains(c) && self.spreads(p, v),
        )
    }

    /// The network with every node of `s` driven by its settled input.
    pub open spec fn corrected(self, s: Set<usize>) -> Self {
        Network {
            nodes: Seq::new(
                self.nodes.len(),
                |i: int|
                    if s.contains(i as usize) {
                        self.nodes[i].with_input(self.settled_input(i as usize))
                    } else {
                        self.nodes[i]
                    },
            ),
            edges: self.edges,
        }
    }

    /// The network after settling from `c`: every node that this gets to is
    /// driven by its settled input, and nothing else has changed.
    pub open spec fn settle(self, c: usize) -> Self {
        self.corrected(self.reach(c))
    }

    /// The network after settling from each parent of `c`.
    pub open spec fn settle_above(self, c: usize) -> Self {
        self.corrected(self.reach_above(c))
    }

    /// The network after the node at `c` has been replaced by `g` and the
    /// replacement has been carried to its parents.
    pub open spec fn updated(self, c: usize, g: Contact<T>) -> Self {
        self.replace(c, g).settle_above(c)
    }

    /// The network after `field` of the nodes at the first `m` of `places`
    /// has been given the first `m` of `values`, one node after the other:
    /// a node that holds the value already is left alone, any other is
    /// updated.
    pub open spec fn amended(self, field: Field, places: Seq<usize>, values: Seq<T>, m: nat) -> Self
        decreases m,
    {
        if m == 0 {
            self
        } else {
            let prior = self.amended(field, places, values, (m - 1) as nat);
            let c = places[m - 1];
            let held = prior.nodes[c as int];
            if held.get(field) == values[m - 1] {
                prior
            } else {
                prior.updated(c, held.with(field, values[m - 1]))
            }
        }
    }
}

} // verus!
