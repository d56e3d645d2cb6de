//! The prover's index over a constraint system: for every word of the value vector, the shifted
//! references that the constraints make to it.

pub mod builder;
pub mod collection;
pub mod dense_shift_encoding;
pub mod format;
pub mod key;
pub mod key_segment;
pub mod laws;
pub mod model;
pub mod operand_order;
pub mod reference;
pub mod serialization;
pub mod walk;
