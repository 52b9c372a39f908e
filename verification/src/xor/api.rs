use vstd::prelude::*;

verus! {

/// The bit that currently drives a cell.
pub trait Input {
    fn input(&self) -> bool;
}

/// The bit a cell presents to whatever reads it.
pub trait Output {
    fn output(&self) -> bool;
}

/// The reference bit a cell's input is compared with.
pub trait Configuration {
    fn configuration(&self) -> bool;
}

/// Inverts the input bit of a cell.
pub trait Toggle {
    fn toggle(&mut self);
}

/// Inverts the reference bit of a cell.
pub trait Reconfigure {
    fn reconfigure(&mut self);
}

} // verus!
