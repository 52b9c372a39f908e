use vstd::prelude::*;

verus! {

/// A value whose operations may be called: the relations between its parts
/// hold. Plain data is always sound; a network is sound when its nodes and
/// its graph agree.
pub trait Sound {
    spec fn sound(&self) -> bool;
}

/// `Transition`: what a seed value becomes once a child disagrees with it.
///
/// An implementation written outside verified code gives `transition_spec`
/// the body of `transition`.
pub trait Transition<T> {
    /// The value that `transition` returns.
    spec fn transition_spec(&self) -> T;

    fn transition(&self) -> (t: T)
        ensures
            t == self.transition_spec(),
    ;
}

/// `Dimension`: how many values something holds.
pub trait Dimension {
    /// The number that `dimension` returns.
    spec fn dimension_spec(&self) -> usize;

    fn dimension(&self) -> (n: usize)
        ensures
            n == self.dimension_spec(),
    ;
}

/// `Input`: the value that drives a node, or the values that drive the
/// leaves of a network.
pub trait Input<T>: Sound {
    fn input(&self) -> T
        requires
            self.sound(),
    ;
}

/// `Configuration`: the value a node's input is compared with, or those of
/// all nodes of a network.
pub trait Configuration<T>: Sound {
    fn configuration(&self) -> T
        requires
            self.sound(),
    ;
}

/// `Program`: the seed a node starts from when it combines its children, or
/// the seeds of all nodes of a network.
pub trait Program<T>: Sound {
    fn program(&self) -> T
        requires
            self.sound(),
    ;
}

/// `Reinput`: replaces the input.
pub trait Reinput<T>: Sound where Self: Input<T> {
    type Error;

    fn reinput(&mut self, i: T) -> (r: Result<(), Self::Error>)
        requires
            old(self).sound(),
        ensures
            final(self).sound(),
    ;
}

/// `Reconfigure`: replaces the configuration.
pub trait Reconfigure<T>: Sound {
    type Error;

    fn reconfigure(&mut self, c: T) -> (r: Result<(), Self::Error>)
        requires
            old(self).sound(),
        ensures
            final(self).sound(),
    ;
}

/// `Reprogram`: replaces the program.
pub trait Reprogram<T>: Sound {
    type Error;

    fn reprogram(&mut self, p: T) -> (r: Result<(), Self::Error>)
        requires
            old(self).sound(),
        ensures
            final(self).sound(),
    ;
}

/// `Output`: what a node presents, or what a network presents at its root
/// once it has settled.
///
/// An implementation written outside verified code gives `output_spec` the
/// body of `output`.
pub trait Output<T>: Sound {
    type Error;

    /// The value that `output` returns.
    spec fn output_spec(&self) -> T;

    fn output(&mut self) -> (t: T)
        requires
            old(self).sound(),
        ensures
            final(self).sound(),
            t == old(self).output_spec(),
    ;
}

/// `Short`: adds an edge between two nodes that are already there.
pub trait Short<T>: Sound {
    type Error;

    fn short(&mut self, x: T, y: T) -> (r: Result<(), Self::Error>)
        requires
            old(self).sound(),
        ensures
            final(self).sound(),
    ;
}

/// `RemoveShort`: removes an edge between two nodes.
pub trait RemoveShort<T>: Sound {
    type Error;

    fn remove_short(&mut self, x: T, y: T) -> (r: Result<(), Self::Error>)
        requires
            old(self).sound(),
        ensures
            final(self).sound(),
    ;
}

/// `AddGate`: adds a new leaf below a node that is already there.
pub trait AddGate<T>: Sound {
    /// `g` is one of the receiver's nodes, as it now stands.
    spec fn holds(&self, g: T) -> bool;

    fn add_gate(&mut self, g: T) -> (leaf: T)
        requires
            old(self).sound(),
            old(self).holds(g),
        ensures
            final(self).sound(),
    ;
}

} // verus!
