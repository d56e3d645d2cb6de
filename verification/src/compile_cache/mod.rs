//! Byte-serialized compilation cache: what compiling a circuit yields, kept for the next process
//! that compiles the same circuit.
//!
//! A cache is valid for the builder state that produced it alone. The loader recomputes a digest
//! of its own state and refuses a cache whose digest differs, as it refuses one of another version
//! of this crate. A trailing checksum refuses a cache that was corrupted at rest or in transit.

pub mod cache;
pub mod checksum;
pub mod digest;
pub mod digest_bytes;
pub mod digest_format;
pub mod digest_laws;
pub mod error;
pub mod force_commit;
pub mod format;
pub mod laws;
pub mod load;
pub mod wire_mapping;
pub mod wire_set;
