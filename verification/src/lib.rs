//! Byte-lane vectors in the shape of 256-bit SIMD registers: a vector of
//! `len` bytes is stored in whole words of 32 one-byte lanes, and every
//! operation works lane by lane over all stored words.
pub mod count;
pub mod lanes;
pub mod laws;
pub mod load;
pub mod render;
pub mod vector;

pub use vector::{AvxNx32x8, Jewel};
