//! The byte format of values: little-endian integers, lengths in four bytes, parts one after the
//! other.

pub mod buffers;
pub mod format;
pub mod laws;
pub mod little_endian;
pub mod primitives;
