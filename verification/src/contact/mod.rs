use vstd::prelude::*;

pub mod api;

use crate::arrangement::Arrangement;
use crate::xor::XOR;
use api::{Gate, Id, Wiring};

verus! {

/// A node of a network of cells: its place in creation order, its cell, and
/// how it combines its children.
#[derive(PartialEq, PartialOrd, Ord, Eq, Clone, Copy, Debug)]
pub struct Contact {
    pub id: usize,
    pub gate: XOR,
    pub wiring: Arrangement,
}

impl Id for Contact {
    fn id(&self) -> (id: usize)
        ensures
            id == self.id,
    {
        self.id
    }
}

impl Gate for Contact {
    fn gate(&self) -> (gate: XOR)
        ensures
            gate == self.gate,
    {
        self.gate
    }
}

impl Wiring for Contact {
    fn wiring(&self) -> (wiring: Arrangement)
        ensures
            wiring == self.wiring,
    {
        self.wiring
    }
}

} // verus!
