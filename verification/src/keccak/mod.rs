//! Keccak-256 as a circuit.

pub mod circuit;
pub mod constraints;
pub mod function;
pub mod laws;
pub mod permutation;
pub mod populate;
pub mod runs;
pub mod sponge;
