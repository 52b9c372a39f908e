use vstd::prelude::*;
use vstd::string::*;
use vstd::utf8::encode_utf8;
use super::api::{
    Configuration, Dimension, Input, Output, Program, Reconfigure, Reinput, Reprogram, Sound,
    Transition,
};
use super::dag::ascending;
use super::model::{Field, Network};
use super::{BTreeReducer, Contact};
use crate::error::Error;

verus! {

impl Dimension for bool {
    open spec fn dimension_spec(&self) -> usize {
        1
    }

    fn dimension(&self) -> (n: usize) {
        1
    }
}

impl<T> Dimension for Vec<T> {
    open spec fn dimension_spec(&self) -> usize {
        self@.len() as usize
    }

    fn dimension(&self) -> (n: usize)
        ensures
            n == self@.len(),
    {
        self.len()
    }
}

impl Dimension for String {
    open spec fn dimension_spec(&self) -> usize {
        encode_utf8(self@).len() as usize
    }

    fn dimension(&self) -> (n: usize) {
        self.as_str().len()
    }
}

impl Dimension for &bool {
    open spec fn dimension_spec(&self) -> usize {
        1
    }

    fn dimension(&self) -> (n: usize) {
        1
    }
}

impl<T> Dimension for &Vec<T> {
    open spec fn dimension_spec(&self) -> usize {
        self@.len() as usize
    }

    fn dimension(&self) -> (n: usize)
        ensures
            n == self@.len(),
    {
        self.len()
    }
}

impl Dimension for &String {
    open spec fn dimension_spec(&self) -> usize {
        encode_utf8(self@).len() as usize
    }

    fn dimension(&self) -> (n: usize) {
        self.as_str().len()
    }
}

impl<T> Network<T> {
    /// The leaves among the first `m` nodes are below `m`, are leaves, come
    /// in ascending order, and none is left out.
    pub proof fn lemma_leaves_among(self, m: nat)
        requires
            self.shaped(),
            m <= self.nodes.len(),
        ensures
            ascending(self.leaves_among(m)),
            forall|j: int|
                0 <= j < self.leaves_among(m).len() ==> (#[trigger] self.leaves_among(m)[j]) < m
                    && self.is_leaf(self.leaves_among(m)[j]),
            forall|c: usize| c < m && self.is_leaf(c) ==> self.leaves_among(m).contains(c),
        decreases m,
    {
        if m > 0 {
            let rest = self.leaves_among((m - 1) as nat);
            self.lemma_leaves_among((m - 1) as nat);
            let all = self.leaves_among(m);
            assert(self.nodes[m - 1].id == m - 1);
            assert forall|c: usize| c < m && self.is_leaf(c) implies all.contains(c) by {
                if c < m - 1 {
                    let j = choose|j: int| 0 <= j < rest.len() && rest[j] == c;
                    assert(all[j] == c);
                } else {
                    assert(all[all.len() - 1] == c);
                }
            }
        }
    }

    /// Which nodes are leaves depends on the edges alone.
    pub proof fn lemma_leaves_same(self, other: Self, m: nat)
        requires
            other.edges == self.edges,
        ensures
            other.leaves_among(m) == self.leaves_among(m),
        decreases m,
    {
        if m > 0 {
            self.lemma_leaves_same(other, (m - 1) as nat);
            assert(other.is_leaf((m - 1) as usize) == self.is_leaf((m - 1) as usize));
        }
    }

    /// `other` is this network after `field` of the nodes at `places` has
    /// been given `values`: the edges and the number of nodes are the same,
    /// the other two values of every node are the same (an input, where the
    /// node is a leaf), and each addressed node holds its new value (an
    /// input, where the node is a leaf).
    pub open spec fn amends(self, other: Self, field: Field, places: Seq<usize>, values: Seq<T>) -> bool {
        &&& other.edges == self.edges
        &&& other.nodes.len() == self.nodes.len()
        &&& forall|i: int| 0 <= i < self.nodes.len() ==> (#[trigger] other.nodes[i]).id == self.nodes[i].id
        &&& field != Field::Configuration ==> other.configurations() == self.configurations()
        &&& field != Field::Program ==> other.programs() == self.programs()
        &&& field != Field::Input ==> other.inputs() == self.inputs()
        &&& forall|j: int|
            0 <= j < places.len() && (field == Field::Input ==> self.is_leaf(places[j]))
                ==> (#[trigger] other.nodes[places[j] as int]).get(field) == values[j]
    }
}

/// The value of `field` of `g`.
fn field_of<T: Copy>(g: &Contact<T>, field: Field) -> (v: T)
    ensures
        v == g.get(field),
{
    match field {
        Field::Input => g.input,
        Field::Configuration => g.configuration,
        Field::Program => g.program,
    }
}

/// `g` with `v` as its `field`.
fn with_field<T: Copy>(g: &Contact<T>, field: Field, v: T) -> (h: Contact<T>)
    ensures
        h == g.with(field, v),
{
    match field {
        Field::Input => Contact {
            id: g.id,
            input: v,
            configuration: g.configuration,
            program: g.program,
        },
        Field::Configuration => Contact {
            id: g.id,
            input: g.input,
            configuration: v,
            program: g.program,
        },
        Field::Program => Contact {
            id: g.id,
            input: g.input,
            configuration: g.configuration,
            program: v,
        },
    }
}

impl<T: Copy + Default + PartialEq + Transition<T>> BTreeReducer<T> where Contact<T>: Output<T> {
    /// The places of the leaves, in ascending order.
    pub(crate) fn get_input_contacts(&self) -> (leaves: Vec<usize>)
        requires
            self.sound(),
        ensures
            leaves@ == self@.leaves(),
    {
        let mut leaves: Vec<usize> = Vec::new();
        let places = self.all_places();
        let mut p: usize = 0;
        while p < places.len()
            invariant
                p <= places@.len(),
                places@ == self@.places(),
                self.sound(),
                leaves@ == self@.leaves_among(p as nat),
            decreases places@.len() - p,
        {
            let v = places[p];
            let kids = self.children(v);
            if kids.len() == 0 {
                leaves.push(v);
            }
            p += 1;
        }
        leaves
    }

    /// The values of `field` of the nodes at `places`, in that order.
    pub(crate) fn read(&self, field: Field, places: &Vec<usize>) -> (values: Vec<T>)
        requires
            self.sound(),
            forall|j: int| 0 <= j < places@.len() ==> self@.has(#[trigger] places@[j]),
        ensures
            values@ == places@.map_values(|c: usize| self@.nodes[c as int].get(field)),
    {
        let mut values: Vec<T> = Vec::new();
        let mut i: usize = 0;
        while i < places.len()
            invariant
                i <= places.len(),
                self.sound(),
                forall|j: int| 0 <= j < places@.len() ==> self@.has(#[trigger] places@[j]),
                values@.len() == i,
                forall|j: int| 0 <= j < i ==> values@[j] == self@.nodes[places@[j] as int].get(field),
            decreases places.len() - i,
        {
            let node = self.nodes[places[i]];
            values.push(field_of(&node, field));
            i += 1;
        }
        assert(values@ =~= places@.map_values(|c: usize| self@.nodes[c as int].get(field)));
        values
    }

    /// Gives `field` of the nodes at `places` the `values`, one node after
    /// the other: a node that holds its value already is left alone, any
    /// other is updated.
    pub(crate) fn amend(&mut self, field: Field, places: &Vec<usize>, values: &Vec<T>)
        requires
            old(self).sound(),
            places@.len() == values@.len(),
            ascending(places@),
            forall|j: int| 0 <= j < places@.len() ==> old(self)@.has(#[trigger] places@[j]),
        ensures
            final(self).sound(),
            final(self)@ == old(self)@.amended(field, places@, values@, places@.len()),
            old(self)@.amends(final(self)@, field, places@, values@),
    {
        let ghost before = self@;
        let mut i: usize = 0;
        proof {
            before.lemma_leaves_same(before, before.nodes.len());
        }
        while i < places.len()
            invariant
                i <= places.len(),
                places@.len() == values@.len(),
                ascending(places@),
                forall|j: int| 0 <= j < places@.len() ==> before.has(#[trigger] places@[j]),
                before.shaped(),
                self.sound(),
                self@ == before.amended(field, places@, values@, i as nat),
                before.amends(self@, field, places@.take(i as int), values@.take(i as int)),
            decreases places.len() - i,
        {
            let c = places[i];
            let node = self.nodes[c];
            let v = values[i];
            let ghost prior = self@;
            if field_of(&node, field) != v {
                let g = with_field(&node, field, v);
                self.rewire(c, g);
                proof {
                    let base = prior.replace(c, g);
                    assert forall|w: usize| #[trigger] base.edges.dom().contains(w) <==> base.has(w) by {
                        assert(prior.edges.dom().contains(w) <==> prior.has(w));
                    }
                    assert(base.shaped());
                    base.lemma_corrected_steady(base.reach_above(c));
                    let after = self@;
                    assert(after.configurations() =~= base.configurations());
                    assert(after.programs() =~= base.programs());
                    if field != Field::Configuration {
                        assert(base.configurations() =~= prior.configurations());
                    }
                    if field != Field::Program {
                        assert(base.programs() =~= prior.programs());
                    }
                    before.lemma_leaves_same(prior, before.nodes.len());
                    before.lemma_leaves_same(after, before.nodes.len());
                    before.lemma_leaves_same(base, before.nodes.len());
                    before.lemma_leaves_among(before.nodes.len());
                    assert(after.inputs() =~= base.inputs());
                    if field != Field::Input {
                        assert(base.inputs() =~= prior.inputs());
                    }
                    assert forall|j: int|
                        0 <= j < i + 1 && (field == Field::Input ==> before.is_leaf(
                            places@.take(i + 1)[j],
                        )) implies (#[trigger] after.nodes[places@.take(i + 1)[j] as int]).get(field)
                        == values@.take(i + 1)[j] by {
                        let w = places@[j];
                        assert(places@.take(i as int)[j] == w || j == i);
                        assert(before.has(w));
                        if j < i {
                            assert(prior.nodes[places@.take(i as int)[j] as int].get(field)
                                == values@.take(i as int)[j]);
                            assert(base.nodes[w as int] == prior.nodes[w as int]);
                        }
                    }
                }
            } else {
                proof {
                    assert forall|j: int|
                        0 <= j < i + 1 && (field == Field::Input ==> before.is_leaf(
                            places@.take(i + 1)[j],
                        )) implies (#[trigger] prior.nodes[places@.take(i + 1)[j] as int]).get(field)
                        == values@.take(i + 1)[j] by {
                        if j < i {
                            assert(prior.nodes[places@.take(i as int)[j] as int].get(field)
                                == values@.take(i as int)[j]);
                        }
                    }
                }
            }
            i += 1;
        }
        proof {
            assert(places@.take(i as int) =~= places@);
            assert(values@.take(i as int) =~= values@);
        }
    }
}

impl<T: Copy + Default + PartialEq + Transition<T>> Input<Vec<T>> for BTreeReducer<T> where
    Contact<T>: Output<T>,
 {
    /// The values that drive the leaves, in ascending order of place.
    fn input(&self) -> (iv: Vec<T>)
        ensures
            iv@ == self@.inputs(),
    {
        let leaves = self.get_input_contacts();
        proof {
            self@.lemma_leaves_among(self@.nodes.len());
        }
        let iv = self.read(Field::Input, &leaves);
        assert(iv@ =~= self@.inputs());
        iv
    }
}

impl<T: Copy + Default + PartialEq + Transition<T>> Configuration<Vec<T>> for BTreeReducer<T> where
    Contact<T>: Output<T>,
 {
    /// The configurations of all nodes, in ascending order of place.
    fn configuration(&self) -> (cv: Vec<T>)
        ensures
            cv@ == self@.configurations(),
    {
        let places = self.all_places();
        let cv = self.read(Field::Configuration, &places);
        assert(cv@ =~= self@.configurations());
        cv
    }
}

impl<T: Copy + Default + PartialEq + Transition<T>> Program<Vec<T>> for BTreeReducer<T> where
    Contact<T>: Output<T>,
 {
    /// The programs of all nodes, in ascending order of place.
    fn program(&self) -> (pv: Vec<T>)
        ensures
            pv@ == self@.programs(),
    {
        let places = self.all_places();
        let pv = self.read(Field::Program, &places);
        assert(pv@ =~= self@.programs());
        pv
    }
}

impl<T: Copy + Default + PartialEq + Transition<T>> BTreeReducer<T> where Contact<T>: Output<T> {
    /// Gives `field` of the nodes at `places` the `values`, if there is one
    /// value for each place; else nothing is changed.
    pub(crate) fn amend_all(&mut self, field: Field, places: &Vec<usize>, values: &Vec<T>) -> (r:
        Result<(), Error>)
        requires
            old(self).sound(),
            ascending(places@),
            forall|j: int| 0 <= j < places@.len() ==> old(self)@.has(#[trigger] places@[j]),
        ensures
            final(self).sound(),
            r == (if values@.len() == places@.len() {
                Ok(())
            } else {
                Err(Error::DimensionMismatch)
            }),
            r.is_err() ==> final(self)@ == old(self)@,
            r.is_ok() ==> final(self)@ == old(self)@.amended(field, places@, values@, places@.len()),
            r.is_ok() ==> old(self)@.amends(final(self)@, field, places@, values@),
    {
        if places.dimension() != values.dimension() {
            return Err(Error::DimensionMismatch);
        }
        self.amend(field, places, values);
        Ok(())
    }
}

impl<T: Copy + Default + PartialEq + Transition<T>> BTreeReducer<T> where Contact<T>: Output<T> {
    /// Drives the leaves by the values of `iv`, as `reinput` does.
    pub(crate) fn reinput_from(&mut self, iv: &Vec<T>) -> (r: Result<(), Error>)
        requires
            old(self).sound(),
        ensures
            final(self).sound(),
            r == (if iv@.len() == old(self)@.leaves().len() {
                Ok(())
            } else {
                Err(Error::DimensionMismatch)
            }),
            r.is_err() ==> final(self)@ == old(self)@,
            r.is_ok() ==> final(self)@ == old(self)@.amended(
                Field::Input,
                old(self)@.leaves(),
                iv@,
                iv@.len(),
            ),
            r.is_ok() ==> final(self)@.inputs() == iv@,
            r.is_ok() ==> final(self)@.configurations() == old(self)@.configurations(),
            r.is_ok() ==> final(self)@.programs() == old(self)@.programs(),
            r.is_ok() ==> final(self)@.edges == old(self)@.edges,
    {
        let ghost before = self@;
        let leaves = self.get_input_contacts();
        proof {
            before.lemma_leaves_among(before.nodes.len());
        }
        let r = self.amend_all(Field::Input, &leaves, iv);
        proof {
            if r.is_ok() {
                before.lemma_leaves_same(self@, before.nodes.len());
                assert(self@.inputs() =~= iv@);
            }
        }
        r
    }

    /// Gives the nodes the configurations of `cv`, as `reconfigure` does.
    pub(crate) fn reconfigure_from(&mut self, cv: &Vec<T>) -> (r: Result<(), Error>)
        requires
            old(self).sound(),
        ensures
            final(self).sound(),
            r == (if cv@.len() == old(self)@.nodes.len() {
                Ok(())
            } else {
                Err(Error::DimensionMismatch)
            }),
            r.is_err() ==> final(self)@ == old(self)@,
            r.is_ok() ==> final(self)@ == old(self)@.amended(
                Field::Configuration,
                old(self)@.places(),
                cv@,
                cv@.len(),
            ),
            r.is_ok() ==> final(self)@.configurations() == cv@,
            r.is_ok() ==> final(self)@.inputs() == old(self)@.inputs(),
            r.is_ok() ==> final(self)@.programs() == old(self)@.programs(),
            r.is_ok() ==> final(self)@.edges == old(self)@.edges,
    {
        let places = self.all_places();
        let r = self.amend_all(Field::Configuration, &places, cv);
        proof {
            if r.is_ok() {
                assert forall|i: int| 0 <= i < cv@.len() implies self@.nodes[i].configuration
                    == cv@[i] by {
                    assert(self@.nodes[places@[i] as int].get(Field::Configuration) == cv@[i]);
                }
                assert(self@.configurations() =~= cv@);
            }
        }
        r
    }

    /// Gives the nodes the programs of `pv`, as `reprogram` does.
    pub(crate) fn reprogram_from(&mut self, pv: &Vec<T>) -> (r: Result<(), Error>)
        requires
            old(self).sound(),
        ensures
            final(self).sound(),
            r == (if pv@.len() == old(self)@.nodes.len() {
                Ok(())
            } else {
                Err(Error::DimensionMismatch)
            }),
            r.is_err() ==> final(self)@ == old(self)@,
            r.is_ok() ==> final(self)@ == old(self)@.amended(
                Field::Program,
                old(self)@.places(),
                pv@,
                pv@.len(),
            ),
            r.is_ok() ==> final(self)@.programs() == pv@,
            r.is_ok() ==> final(self)@.inputs() == old(self)@.inputs(),
            r.is_ok() ==> final(self)@.configurations() == old(self)@.configurations(),
            r.is_ok() ==> final(self)@.edges == old(self)@.edges,
    {
        let places = self.all_places();
        let r = self.amend_all(Field::Program, &places, pv);
        proof {
            if r.is_ok() {
                assert forall|i: int| 0 <= i < pv@.len() implies self@.nodes[i].program == pv@[i] by {
                    assert(self@.nodes[places@[i] as int].get(Field::Program) == pv@[i]);
                }
                assert(self@.programs() =~= pv@);
            }
        }
        r
    }
}

impl<T: Copy + Default + PartialEq + Transition<T>> Reinput<Vec<T>> for BTreeReducer<T> where
    Contact<T>: Output<T>,
 {
    type Error = Error;

    /// Drives the leaves, in ascending order of place, by the values of
    /// `iv`. A leaf whose input differs from its value is updated; the
    /// others are left alone. Refused, with nothing changed, unless `iv` has
    /// one value for each leaf.
    fn reinput(&mut self, iv: Vec<T>) -> (r: Result<(), Error>)
        ensures
            r == (if iv@.len() == old(self)@.leaves().len() {
                Ok(())
            } else {
                Err(Error::DimensionMismatch)
            }),
            r.is_err() ==> final(self)@ == old(self)@,
            r.is_ok() ==> final(self)@ == old(self)@.amended(
                Field::Input,
                old(self)@.leaves(),
                iv@,
                iv@.len(),
            ),
            r.is_ok() ==> final(self)@.inputs() == iv@,
            r.is_ok() ==> final(self)@.configurations() == old(self)@.configurations(),
            r.is_ok() ==> final(self)@.programs() == old(self)@.programs(),
            r.is_ok() ==> final(self)@.edges == old(self)@.edges,
    {
        self.reinput_from(&iv)
    }
}

impl<T: Copy + Default + PartialEq + Transition<T>> Reconfigure<Vec<T>> for BTreeReducer<T> where
    Contact<T>: Output<T>,
 {
    type Error = Error;

    /// Gives the nodes, in ascending order of place, the configurations of
    /// `cv`. A node whose configuration differs from its value is updated;
    /// the others are left alone. Refused, with nothing changed, unless `cv`
    /// has one value for each node.
    fn reconfigure(&mut self, cv: Vec<T>) -> (r: Result<(), Error>)
        ensures
            r == (if cv@.len() == old(self)@.nodes.len() {
                Ok(())
            } else {
                Err(Error::DimensionMismatch)
            }),
            r.is_err() ==> final(self)@ == old(self)@,
            r.is_ok() ==> final(self)@ == old(self)@.amended(
                Field::Configuration,
                old(self)@.places(),
                cv@,
                cv@.len(),
            ),
            r.is_ok() ==> final(self)@.configurations() == cv@,
            r.is_ok() ==> final(self)@.inputs() == old(self)@.inputs(),
            r.is_ok() ==> final(self)@.programs() == old(self)@.programs(),
            r.is_ok() ==> final(self)@.edges == old(self)@.edges,
    {
        self.reconfigure_from(&cv)
    }
}

impl<T: Copy + Default + PartialEq + Transition<T>> Reprogram<Vec<T>> for BTreeReducer<T> where
    Contact<T>: Output<T>,
 {
    type Error = Error;

    /// Gives the nodes, in ascending order of place, the programs of `pv`.
    /// A node whose program differs from its value is updated; the others
    /// are left alone. Refused, with nothing changed, unless `pv` has one
    /// value for each node.
    fn reprogram(&mut self, pv: Vec<T>) -> (r: Result<(), Error>)
        ensures
            r == (if pv@.len() == old(self)@.nodes.len() {
                Ok(())
            } else {
                Err(Error::DimensionMismatch)
            }),
            r.is_err() ==> final(self)@ == old(self)@,
            r.is_ok() ==> final(self)@ == old(self)@.amended(
                Field::Program,
                old(self)@.places(),
                pv@,
                pv@.len(),
            ),
            r.is_ok() ==> final(self)@.programs() == pv@,
            r.is_ok() ==> final(self)@.inputs() == old(self)@.inputs(),
            r.is_ok() ==> final(self)@.configurations() == old(self)@.configurations(),
            r.is_ok() ==> final(self)@.edges == old(self)@.edges,
    {
        self.reprogram_from(&pv)
    }
}

} // verus!
