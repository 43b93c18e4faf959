use vstd::prelude::*;

verus! {

/// Why an operation of this crate did not produce its result.
#[derive(Clone, Copy, Debug, PartialEq, Eq, Structural)]
pub enum Error {
    /// The left operand's column count differs from the right operand's row count.
    DimensionMismatch,
    /// The reducer was handed two sequences of different lengths.
    LengthMismatch,
    /// A worker did not take a task, or did not answer one with a usable reply.
    WorkerUnavailable,
}

} // verus!
