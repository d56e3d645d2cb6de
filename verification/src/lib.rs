pub mod circuit;
pub mod compile_cache;
pub mod constraint_system;
pub mod ir;
pub mod keccak;
pub mod key_collection;
pub mod serialization;
