use vstd::prelude::*;
use vstd::string::*;
use super::api::{Configuration, Input, Output, Program, Reconfigure, Reinput, Reprogram, Sound};
use super::codec::{decoded, encoded, legible};
use super::model::Field;
use super::BTreeReducer;
use crate::error::Error;

verus! {

/// The characters of `s`.
pub open spec fn text_of(s: String) -> Seq<char> {
    s@
}

impl Input<String> for BTreeReducer<bool> {
    /// The bits that drive the leaves, as text.
    fn input(&self) -> (s: String)
        ensures
            text_of(s) == encoded(self@.inputs()),
    {
        let iv: Vec<bool> = self.input();
        BTreeReducer::<bool>::bool_to_str(iv)
    }
}

impl Configuration<String> for BTreeReducer<bool> {
    /// The configurations of all nodes, as text.
    fn configuration(&self) -> (s: String)
        ensures
            text_of(s) == encoded(self@.configurations()),
    {
        let cv: Vec<bool> = self.configuration();
        BTreeReducer::<bool>::bool_to_str(cv)
    }
}

impl Program<String> for BTreeReducer<bool> {
    /// The programs of all nodes, as text.
    fn program(&self) -> (s: String)
        ensures
            text_of(s) == encoded(self@.programs()),
    {
        let pv: Vec<bool> = self.program();
        BTreeReducer::<bool>::bool_to_str(pv)
    }
}

impl BTreeReducer<bool> {
    /// What becomes of a request to set one bit per entry of `places` from
    /// the text `s`: the text must be legible and have one character for
    /// each place.
    pub open spec fn may_amend(s: Seq<char>, places: Seq<usize>) -> Result<(), Error> {
        if !legible(s) {
            Err(Error::InvalidCharacter)
        } else if s.len() != places.len() {
            Err(Error::DimensionMismatch)
        } else {
            Ok(())
        }
    }

    /// Settles the network from the root and returns what the root then
    /// presents, as text: `"1"` or `"0"`.
    pub fn output_string(&mut self) -> (s: String)
        requires
            old(self).sound(),
        ensures
            final(self).sound(),
            final(self)@ == old(self)@.settle(0),
            s@ == encoded(seq![old(self)@.settled_output(0)]),
    {
        let bit: bool = self.output();
        proof {
            reveal_strlit("1");
            reveal_strlit("0");
        }
        let s = if bit {
            String::from_str("1")
        } else {
            String::from_str("0")
        };
        assert(s@ =~= encoded(seq![bit]));
        s
    }
}

impl Reinput<String> for BTreeReducer<bool> {
    type Error = Error;

    /// Drives the leaves by the bits that `ss` stands for. Refused, with
    /// nothing changed, when `ss` is not legible or has not one character
    /// for each leaf.
    fn reinput(&mut self, ss: String) -> (r: Result<(), Error>)
        ensures
            r == Self::may_amend(ss@, old(self)@.leaves()),
            r.is_err() ==> final(self)@ == old(self)@,
            r.is_ok() ==> final(self)@ == old(self)@.amended(
                Field::Input,
                old(self)@.leaves(),
                decoded(ss@),
                ss@.len(),
            ),
            r.is_ok() ==> final(self)@.inputs() == decoded(ss@),
            r.is_ok() ==> final(self)@.configurations() == old(self)@.configurations(),
            r.is_ok() ==> final(self)@.programs() == old(self)@.programs(),
            r.is_ok() ==> final(self)@.edges == old(self)@.edges,
    {
        match BTreeReducer::<bool>::try_str_to_bool(ss) {
            Ok(sv) => self.reinput(sv),
            Err(e) => Err(e),
        }
    }
}

impl Reconfigure<String> for BTreeReducer<bool> {
    type Error = Error;

    /// Gives the nodes the configurations that `ss` stands for. Refused,
    /// with nothing changed, when `ss` is not legible or has not one
    /// character for each node.
    fn reconfigure(&mut self, ss: String) -> (r: Result<(), Error>)
        ensures
            r == Self::may_amend(ss@, old(self)@.places()),
            r.is_err() ==> final(self)@ == old(self)@,
            r.is_ok() ==> final(self)@ == old(self)@.amended(
                Field::Configuration,
                old(self)@.places(),
                decoded(ss@),
                ss@.len(),
            ),
            r.is_ok() ==> final(self)@.configurations() == decoded(ss@),
            r.is_ok() ==> final(self)@.inputs() == old(self)@.inputs(),
            r.is_ok() ==> final(self)@.programs() == old(self)@.programs(),
            r.is_ok() ==> final(self)@.edges == old(self)@.edges,
    {
        match BTreeReducer::<bool>::try_str_to_bool(ss) {
            Ok(sv) => self.reconfigure(sv),
            Err(e) => Err(e),
        }
    }
}

impl Reprogram<String> for BTreeReducer<bool> {
    type Error = Error;

    /// Gives the nodes the programs that `ps` stands for. Refused, with
    /// nothing changed, when `ps` is not legible or has not one character
    /// for each node.
    fn reprogram(&mut self, ps: String) -> (r: Result<(), Error>)
        ensures
            r == Self::may_amend(ps@, old(self)@.places()),
            r.is_err() ==> final(self)@ == old(self)@,
            r.is_ok() ==> final(self)@ == old(self)@.amended(
                Field::Program,
                old(self)@.places(),
                decoded(ps@),
                ps@.len(),
            ),
            r.is_ok() ==> final(self)@.programs() == decoded(ps@),
            r.is_ok() ==> final(self)@.inputs() == old(self)@.inputs(),
            r.is_ok() ==> final(self)@.configurations() == old(self)@.configurations(),
            r.is_ok() ==> final(self)@.edges == old(self)@.edges,
    {
        match BTreeReducer::<bool>::try_str_to_bool(ps) {
            Ok(pv) => self.reprogram(pv),
            Err(e) => Err(e),
        }
    }
}

} // verus!
