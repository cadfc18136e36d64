use vstd::prelude::*;

verus! {

/// The ways in which an operation on a table can fail.
#[derive(Debug, Clone, Copy, PartialEq, Eq, Structural)]
pub enum ErrorKind {
    /// The identifier does not resolve to a row.
    NotFound,
    /// The row is not in the state that the operation requires,
    /// or an identifier is already taken.
    Conflict,
    /// A selection found no eligible item.
    EmptyPool,
}

} // verus!
