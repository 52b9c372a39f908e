use vstd::prelude::*;

pub mod api;

use api::{Configuration, Input, Output, Reconfigure, Toggle};

verus! {

/// A two-state cell: an input bit and a reference bit. Its output is high
/// exactly when the two differ.
#[derive(PartialEq, PartialOrd, Ord, Eq, Clone, Copy, Debug)]
pub struct XOR(pub bool, pub bool);

impl XOR {
    /// The output of the cell as a function of its two bits.
    pub open spec fn out(self) -> bool {
        self.0 != self.1
    }

    /// A cell with both bits low.
    pub fn new() -> (cell: Self)
        ensures
            cell.0 == false,
            cell.1 == false,
    {
        XOR(false, false)
    }
}

impl Default for XOR {
    fn default() -> (cell: Self)
        ensures
            cell.0 == false,
            cell.1 == false,
    {
        Self::new()
    }
}

impl Input for XOR {
    fn input(&self) -> (bit: bool)
        ensures
            bit == self.0,
    {
        self.0
    }
}

impl Output for XOR {
    fn output(&self) -> (bit: bool)
        ensures
            bit == self.out(),
    {
        self.0 != self.1
    }
}

impl Configuration for XOR {
    fn configuration(&self) -> (bit: bool)
        ensures
            bit == self.1,
    {
        self.1
    }
}

impl Toggle for XOR {
    fn toggle(&mut self)
        ensures
            final(self).0 == !old(self).0,
            final(self).1 == old(self).1,
    {
        self.0 = !self.0;
    }
}

impl Reconfigure for XOR {
    fn reconfigure(&mut self)
        ensures
            final(self).0 == old(self).0,
            final(self).1 == !old(self).1,
    {
        self.1 = !self.1;
    }
}

} // verus!
