//! Support-vector-machine training: the dual quadratic program.

pub mod qpsolver;
