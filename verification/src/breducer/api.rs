use vstd::prelude::*;
use crate::error::Error;
use crate::reducer::api::Sound;

verus! {

/// The bits that drive the leaves of a network.
pub trait Input: Sound {
    fn input(&self) -> Vec<bool>
        requires
            self.sound(),
    ;
}

/// The reference bits of all nodes of a network.
pub trait State: Sound {
    fn state(&self) -> Vec<bool>
        requires
            self.sound(),
    ;
}

/// Gives the nodes of a network new reference bits.
pub trait TransitionState: Sound {
    fn transition_state(&mut self, sv: Vec<bool>) -> (r: Result<Vec<bool>, Error>)
        requires
            old(self).sound(),
        ensures
            final(self).sound(),
    ;
}

/// Drives the leaves of a network by new bits.
pub trait TransitionInput: Sound {
    fn transition_input(&mut self, sv: Vec<bool>) -> (r: Result<Vec<bool>, Error>)
        requires
            old(self).sound(),
        ensures
            final(self).sound(),
    ;
}

} // verus!
