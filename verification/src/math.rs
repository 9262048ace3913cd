//! Scalars, vectors, matrices and the factorizations built on them.

pub mod error;
pub mod scalar;
pub mod vector;
pub mod matrix;
pub mod lu;
pub mod gauss;
pub mod qr;
