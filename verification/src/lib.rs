//! Dense row-major matrices of IEEE-754 binary64 values, carried as their
//! 64-bit patterns, with dimension-checked sequential and parallel
//! multiplication that agree bit for bit.

pub mod errors;
pub mod floatops;
pub mod laws;
pub mod matrix;
pub mod par;
pub mod plan;
