//! Why an operation was refused.

use vstd::prelude::*;

verus! {

/// The reason an operation of this library refuses its operands.
#[derive(Debug, Clone, Copy, PartialEq, Eq, Structural)]
pub enum MathError {
    /// Two operands whose sizes must agree do not agree.
    DimensionMismatch,
    /// The operation is defined for two-by-two matrices only.
    UnsupportedShape,
    /// The operation needs at least one element and was given none.
    EmptyInput,
    /// Two values that had to be compared have no order between them.
    Incomparable,
}

} // verus!
