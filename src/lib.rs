//! Dense matrix multiplication kernels over row-major buffers.
//!
//! Elements are `i64` combined with wrapping arithmetic, that is arithmetic
//! modulo 2^64: every kernel computes each output cell as the exact integer
//! dot product, reduced into `i64`. Because this is a ring, all kernels agree
//! exactly whatever order they sum in.
pub mod arith;
pub mod dense;
pub mod laws;
pub mod matrix;
pub mod shape;
