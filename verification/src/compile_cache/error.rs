//! Why a compilation cache was refused.

use vstd::prelude::*;

use crate::constraint_system::validate::ConstraintSystemError;
use crate::serialization::format::SerializationError;

verus! {

/// Why a compilation cache was refused.
#[derive(Clone, Debug, PartialEq, Eq)]
pub enum CompileCacheError {
    /// The bytes do not decode as a compilation cache of this version.
    Deserialize(SerializationError),
    /// The cache was written by a different published version of this crate. The digest cannot
    /// see changes to the passes or the lowering, so a version mismatch is refused outright.
    VersionMismatch { cached: String, current: &'static str },
    /// The bytes decode, but were written for a different builder state than this one: different
    /// construction code, parameters, options or force-committed wires.
    StateMismatch {
        cached_wires: usize,
        cached_gates: usize,
        cached_digest: u64,
        built_wires: usize,
        built_gates: usize,
        built_digest: u64,
    },
    /// The bytes decode and pass the payload checksum, but the constraint system they carry fails
    /// its own validation.
    Validation(ConstraintSystemError),
}

/// What a [`CompileCacheError`] says.
pub ghost enum Refusal {
    Deserialize(SerializationError),
    VersionMismatch { cached: Seq<char>, current: Seq<char> },
    StateMismatch {
        cached_wires: usize,
        cached_gates: usize,
        cached_digest: u64,
        built_wires: usize,
        built_gates: usize,
        built_digest: u64,
    },
    Validation(ConstraintSystemError),
}

impl DeepView for CompileCacheError {
    type V = Refusal;

    open spec fn deep_view(&self) -> Refusal {
        match *self {
            CompileCacheError::Deserialize(e) => Refusal::Deserialize(e),
            CompileCacheError::VersionMismatch { cached, current } => Refusal::VersionMismatch {
                cached: cached@,
                current: current@,
            },
            CompileCacheError::StateMismatch {
                cached_wires,
                cached_gates,
                cached_digest,
                built_wires,
                built_gates,
                built_digest,
            } => Refusal::StateMismatch {
                cached_wires,
                cached_gates,
                cached_digest,
                built_wires,
                built_gates,
                built_digest,
            },
            CompileCacheError::Validation(e) => Refusal::Validation(e),
        }
    }
}

} // verus!
