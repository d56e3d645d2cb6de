//! Circuits over 64-bit words: what an assignment of their wires has to satisfy, how they are
//! built, and how an assignment is computed.

pub mod builder;
pub mod laws;
pub mod multiplexer;
pub mod semantics;
pub mod witness;
