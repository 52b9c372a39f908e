use vstd::prelude::*;

pub mod api;

pub use crate::contact::Contact;

use crate::arrangement::Arrangement;
use crate::error::Error;
use crate::reducer::api::{
    Configuration as NodeConfiguration, Input as NodeInput, Output as NodeOutput, Sound,
};
use crate::reducer::dag::no_edges;
use crate::reducer::model::{Field, Network};
use crate::xor::XOR;
use api::{Input, State, TransitionInput, TransitionState};

verus! {

/// The node of the general network that stands for `c`: the cell's two bits
/// are its input and configuration, the seed of the wiring is its program.
pub open spec fn lowered(c: Contact) -> crate::reducer::Contact<bool> {
    crate::reducer::Contact {
        id: c.id,
        input: c.gate.0,
        configuration: c.gate.1,
        program: c.wiring.seed(),
    }
}

/// The contact that `g` stands for.
pub open spec fn raised(g: crate::reducer::Contact<bool>) -> Contact {
    Contact {
        id: g.id,
        gate: XOR(g.input, g.configuration),
        wiring: if g.program {
            Arrangement::Series
        } else {
            Arrangement::Parallel
        },
    }
}

/// `c` with its input bit inverted, or with its reference bit inverted when
/// `b` is set.
pub open spec fn toggled(c: Contact, b: bool) -> Contact {
    Contact {
        id: c.id,
        gate: if b {
            XOR(c.gate.0, !c.gate.1)
        } else {
            XOR(!c.gate.0, c.gate.1)
        },
        wiring: c.wiring,
    }
}

/// To lower a contact and raise it again gives the contact, and the other
/// way round.
pub proof fn lemma_lower_raise(c: Contact, g: crate::reducer::Contact<bool>)
    ensures
        raised(lowered(c)) == c,
        lowered(raised(g)) == g,
{
}

fn lower(c: &Contact) -> (g: crate::reducer::Contact<bool>)
    ensures
        g == lowered(*c),
{
    crate::reducer::Contact {
        id: c.id,
        input: c.gate.0,
        configuration: c.gate.1,
        program: bool::from(c.wiring),
    }
}

fn raise(g: &crate::reducer::Contact<bool>) -> (c: Contact)
    ensures
        c == raised(*g),
{
    Contact {
        id: g.id,
        gate: XOR(g.input, g.configuration),
        wiring: if g.program {
            Arrangement::Series
        } else {
            Arrangement::Parallel
        },
    }
}

/// A network of two-state cells, each wired in series or in parallel. It is
/// the general network over bits, with the seed of a node's wiring as that
/// node's program.
#[derive(PartialEq, Eq, Debug)]
pub struct BTreeReducer {
    net: crate::reducer::BTreeReducer<bool>,
}

impl View for BTreeReducer {
    type V = Network<bool>;

    closed spec fn view(&self) -> Network<bool> {
        self.net@
    }
}

impl Sound for BTreeReducer {
    open spec fn sound(&self) -> bool {
        self@.shaped()
    }
}

impl Clone for BTreeReducer {
    /// A network with the same nodes and edges.
    fn clone(&self) -> (r: Self)
        ensures
            r@ == self@,
    {
        BTreeReducer { net: self.net.clone() }
    }
}

impl BTreeReducer {
    /// A network of one node, the root: place 0, both bits low, wired in
    /// parallel, no edges.
    pub fn new() -> (r: Self)
        ensures
            r.sound(),
            r@.nodes.len() == 1,
            raised(r@.nodes[0]) == (Contact { id: 0, gate: XOR(false, false), wiring: Arrangement::Parallel }),
            r@.edges == no_edges().insert(0, Set::empty()),
    {
        BTreeReducer { net: crate::reducer::BTreeReducer::new() }
    }

    /// Adds a new leaf below `c`: the next place, both bits low, wired as
    /// `a` says. The network is then settled from the root.
    pub fn add_gate(&mut self, c: Contact, a: Arrangement) -> (leaf: Contact)
        requires
            old(self).sound(),
            old(self)@.holds(lowered(c)),
        ensures
            final(self).sound(),
            leaf == (Contact { id: old(self)@.nodes.len() as usize, gate: XOR(false, false), wiring: a }),
            final(self)@ == old(self)@.grown(c.id, lowered(leaf)).settle(0),
            final(self)@.holds(lowered(leaf)),
    {
        let places: Vec<bool> = self.net.configuration();
        let leaf = Contact { id: places.len(), gate: XOR::new(), wiring: a };
        self.net.graft(c.id, lower(&leaf));
        leaf
    }

    /// The root: the node at place 0.
    pub fn root(&self) -> (c: Contact)
        requires
            self.sound(),
        ensures
            c == raised(self@.nodes[0]),
            self@.holds(lowered(c)),
    {
        raise(&self.net.root())
    }

    /// Inverts the input bit of `c`, or its reference bit when `b` is set,
    /// puts the result in the place of `c` and settles the network from
    /// each parent of that place. Returns the contact as it then stands.
    pub fn toggle(&mut self, c: Contact, b: bool) -> (t: Contact)
        requires
            old(self).sound(),
            old(self)@.holds(lowered(c)),
        ensures
            final(self).sound(),
            t == toggled(c, b),
            final(self)@ == old(self)@.updated(c.id, lowered(t)),
    {
        let gate = if b {
            XOR(c.gate.0, !c.gate.1)
        } else {
            XOR(!c.gate.0, c.gate.1)
        };
        let t = Contact { id: c.id, gate, wiring: c.wiring };
        let r = self.net.update(lower(&c), lower(&t));
        assert(r.is_ok());
        t
    }

    /// Settles the network from the root and returns what the root then
    /// presents.
    pub fn output(&mut self) -> (bit: bool)
        requires
            old(self).sound(),
        ensures
            final(self).sound(),
            bit == old(self)@.settled_output(0),
            final(self)@ == old(self)@.settle(0),
    {
        self.net.output()
    }

    /// Adds an edge from `x` to `y`, two nodes that are already there.
    /// Nothing is settled.
    pub fn short(&mut self, x: Contact, y: Contact) -> (r: Result<(), Error>)
        requires
            old(self).sound(),
        ensures
            final(self).sound(),
            r == old(self)@.may_join(lowered(x), lowered(y)),
            final(self)@ == (if r.is_ok() {
                old(self)@.joined(x.id, y.id)
            } else {
                old(self)@
            }),
    {
        self.net.short(lower(&x), lower(&y))
    }
}

impl Default for BTreeReducer {
    /// A network of one node, as `new` makes it.
    fn default() -> (r: Self)
        ensures
            r.sound(),
            r@.nodes.len() == 1,
            raised(r@.nodes[0]) == (Contact { id: 0, gate: XOR(false, false), wiring: Arrangement::Parallel }),
            r@.edges == no_edges().insert(0, Set::empty()),
    {
        Self::new()
    }
}

impl Input for BTreeReducer {
    /// The bits that drive the leaves, in ascending order of place.
    fn input(&self) -> (iv: Vec<bool>)
        ensures
            iv@ == self@.inputs(),
    {
        self.net.input()
    }
}

impl State for BTreeReducer {
    /// The reference bits of all nodes, in ascending order of place.
    fn state(&self) -> (sv: Vec<bool>)
        ensures
            sv@ == self@.configurations(),
    {
        self.net.configuration()
    }
}

impl TransitionInput for BTreeReducer {
    /// Drives the leaves, in ascending order of place, by the bits of `sv`,
    /// and hands `sv` back. A leaf whose input bit differs from its bit is
    /// toggled; the others are left alone. Refused, with nothing changed,
    /// unless `sv` has one bit for each leaf.
    fn transition_input(&mut self, sv: Vec<bool>) -> (r: Result<Vec<bool>, Error>)
        ensures
            r.is_ok() == (sv@.len() == old(self)@.leaves().len()),
            r.is_err() ==> r == Err::<Vec<bool>, Error>(Error::DimensionMismatch) && final(self)@ == old(
                self,
            )@,
            r.is_ok() ==> r.unwrap()@ == sv@ && final(self)@ == old(self)@.amended(
                Field::Input,
                old(self)@.leaves(),
                sv@,
                sv@.len(),
            ),
            r.is_ok() ==> final(self)@.inputs() == sv@,
            r.is_ok() ==> final(self)@.configurations() == old(self)@.configurations(),
            r.is_ok() ==> final(self)@.programs() == old(self)@.programs(),
            r.is_ok() ==> final(self)@.edges == old(self)@.edges,
    {
        match self.net.reinput_from(&sv) {
            Ok(()) => Ok(sv),
            Err(e) => Err(e),
        }
    }
}

impl TransitionState for BTreeReducer {
    /// Gives the nodes, in ascending order of place, the reference bits of
    /// `sv`, and hands `sv` back. A node whose reference bit differs from
    /// its bit is toggled; the others are left alone. Refused, with nothing
    /// changed, unless `sv` has one bit for each node.
    fn transition_state(&mut self, sv: Vec<bool>) -> (r: Result<Vec<bool>, Error>)
        ensures
            r.is_ok() == (sv@.len() == old(self)@.nodes.len()),
            r.is_err() ==> r == Err::<Vec<bool>, Error>(Error::DimensionMismatch) && final(self)@ == old(
                self,
            )@,
            r.is_ok() ==> r.unwrap()@ == sv@ && final(self)@ == old(self)@.amended(
                Field::Configuration,
                old(self)@.places(),
                sv@,
                sv@.len(),
            ),
            r.is_ok() ==> final(self)@.configurations() == sv@,
            r.is_ok() ==> final(self)@.inputs() == old(self)@.inputs(),
            r.is_ok() ==> final(self)@.programs() == old(self)@.programs(),
            r.is_ok() ==> final(self)@.edges == old(self)@.edges,
    {
        match self.net.reconfigure_from(&sv) {
            Ok(()) => Ok(sv),
            Err(e) => Err(e),
        }
    }
}

} // verus!
