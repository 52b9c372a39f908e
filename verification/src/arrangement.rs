use vstd::prelude::*;
use vstd::std_specs::convert::FromSpecImpl;

verus! {

/// How a node combines its children: in series it starts from a high seed,
/// in parallel from a low one.
#[derive(PartialEq, PartialOrd, Ord, Eq, Structural, Clone, Copy, Debug)]
pub enum Arrangement {
    Series,
    Parallel,
}

impl Arrangement {
    /// The seed of this arrangement: high for series, low for parallel.
    pub open spec fn seed(self) -> bool {
        self == Arrangement::Series
    }
}

impl From<Arrangement> for bool {
    fn from(a: Arrangement) -> (seed: bool) {
        match a {
            Arrangement::Series => true,
            Arrangement::Parallel => false,
        }
    }
}

impl FromSpecImpl<Arrangement> for bool {
    open spec fn obeys_from_spec() -> bool {
        true
    }

    open spec fn from_spec(a: Arrangement) -> bool {
        a.seed()
    }
}

} // verus!
