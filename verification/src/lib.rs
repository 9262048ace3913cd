//! A dense linear-algebra kernel over IEEE 754 doubles, with a box-constrained
//! quadratic-program solver built on it.
//!
//! Every double is held by its 64-bit pattern. Ordering, sign and magnitude
//! are computed on the bits by verified integer code; rounded arithmetic is
//! delegated to a software implementation and enters the contracts by name.

pub mod math;
pub mod svm;

pub use math::error::MathError;
pub use math::matrix::Matrix;
pub use math::scalar::Double;
pub use math::vector::Vector;
pub use svm::qpsolver::QPSolver;
