use vstd::prelude::*;

verus! {

/// The ways an operation of the engine can fail.
#[derive(Clone, Copy, Debug, PartialEq, Eq, Structural)]
pub enum GeneticError {
    /// A mutation chance outside `0..=100` percent.
    InvalidArgument,
    /// A population too small for the operation (no parent or no partner to breed with).
    InvariantViolation,
}

} // verus!
