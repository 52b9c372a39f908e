use vstd::prelude::*;
use crate::arrangement::Arrangement;
use crate::xor::XOR;

verus! {

/// The place of a contact in creation order.
pub trait Id {
    fn id(&self) -> usize;
}

/// The cell of a contact.
pub trait Gate {
    fn gate(&self) -> XOR;
}

/// How a contact combines its children.
pub trait Wiring {
    fn wiring(&self) -> Arrangement;
}

} // verus!
