use vstd::prelude::*;

verus! {

/// The failure conditions of a matrix multiplication.
#[derive(Clone, Copy, Debug, PartialEq, Eq, Structural)]
pub enum MatrixError {
    /// The inner dimensions of the two operands disagree, or the two
    /// vectors handed to a dot product have different lengths.
    DimensionMismatch,
    /// The replies collected for a multiplication do not map one-to-one
    /// onto the output cells, as happens when a worker drops a task or
    /// answers for the wrong cell.
    WorkerCommunicationFailure,
}

} // verus!
