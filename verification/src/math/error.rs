//! The errors of the kernel.

use vstd::prelude::*;

verus! {

/// Why an operation of this crate refused its input.
#[derive(Clone, Copy, Debug, PartialEq, Eq, Structural)]
pub enum MathError {
    /// The shapes of the operands do not fit together.
    DimensionMismatch,
    /// A pivot was indistinguishable from zero.
    SingularMatrix,
    /// A row, column or element index lies outside the valid range.
    IndexOutOfRange,
}

} // verus!
