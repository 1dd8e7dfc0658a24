use vstd::prelude::*;

verus! {

/// Errors reported by the array operations. Every error is detected
/// synchronously at the offending call and leaves the array unchanged.
#[derive(Clone, Copy, Debug, PartialEq, Eq, Structural)]
pub enum NdError {
    /// A shape's element product does not reconcile with the available
    /// element count.
    ShapeMismatch,
    /// A progression's start lies beyond its end.
    InvalidRange,
    /// A generated progression value cannot be represented in the element
    /// type.
    ConversionFailure,
    /// A resolved flat offset is not less than the current length.
    IndexOutOfBounds,
}

} // verus!
