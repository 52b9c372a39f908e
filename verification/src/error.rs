use vstd::prelude::*;

verus! {

/// Why an operation on a network was refused. A refused operation leaves the
/// network as it was.
#[derive(PartialEq, Eq, Structural, Clone, Copy, Debug)]
pub enum Error {
    /// A vector of values does not have one entry per addressed node.
    DimensionMismatch,
    /// A string holds a character other than `'0'` and `'1'`.
    InvalidCharacter,
    /// The edge to add is already there.
    DuplicateEdge,
    /// The edge to remove is not there.
    MissingEdge,
    /// A node was named by a value that the network does not hold (any more).
    VertexAbsent,
    /// The edge to add would close a cycle.
    Cycle,
}

} // verus!
