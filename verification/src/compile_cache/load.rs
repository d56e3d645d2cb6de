//! Loading a cache into a builder's state.

use vstd::prelude::*;

use crate::compile_cache::cache::{
    cache_bytes, field_tokens, parse_cache, CompileCacheParts, Payload,
};
use crate::compile_cache::digest::{
    graph_digest, law_digest_detects_an_option, options_words, state_digest, Options,
};
use crate::compile_cache::error::{CompileCacheError, Refusal};
use crate::compile_cache::force_commit::law_force_commit_is_detected;
use crate::compile_cache::laws::law_cache_round_trip;
use crate::compile_cache::wire_set::WireSet;
use crate::constraint_system::validate::{first_error, law_no_error_iff_valid};
use crate::constraint_system::ConstraintSystem;
use crate::ir::GateGraph;
use crate::serialization::format::{sizes_fit, DeserializeBytes};

verus! {

/// Whether a payload was written for a builder's state.
pub open spec fn state_matches(
    v: Payload,
    graph: GateGraph,
    opts: Options,
    force_committed: Set<usize>,
) -> bool {
    &&& v.n_wires == graph.wires@.len()
    &&& v.n_gates == graph.gates@.len()
    &&& v.digest == state_digest(graph, opts, force_committed)
}

/// What comes of loading a cache into a builder's state.
pub open spec fn load_outcome(
    bytes: Seq<u8>,
    graph: GateGraph,
    opts: Options,
    force_committed: Set<usize>,
) -> Result<Payload, Refusal> {
    match parse_cache(bytes) {
        Err(refusal) => Err(refusal),
        Ok(v) => if !state_matches(v, graph, opts, force_committed) {
            Err(
                Refusal::StateMismatch {
                    cached_wires: v.n_wires,
                    cached_gates: v.n_gates,
                    cached_digest: v.digest,
                    built_wires: graph.wires@.len() as usize,
                    built_gates: graph.gates@.len() as usize,
                    built_digest: state_digest(graph, opts, force_committed),
                },
            )
        } else {
            match first_error(v.constraint_system) {
                Some(e) => Err(Refusal::Validation(e)),
                None => Ok(v),
            }
        },
    }
}

/// Opens a cache, refuses it where it was written for another builder state than this one, and
/// validates the constraint system that it carries.
pub fn load(
    bytes: &[u8],
    graph: &GateGraph,
    opts: &Options,
    force_committed: &WireSet,
) -> (result: Result<CompileCacheParts, CompileCacheError>)
    ensures
        match result {
            Ok(parts) => load_outcome(bytes@, *graph, *opts, force_committed@) matches Ok(v)
                && parts.records(v),
            Err(e) => load_outcome(bytes@, *graph, *opts, force_committed@) == Err::<
                Payload,
                Refusal,
            >(e.deep_view()),
        },
{
    let parts = CompileCacheParts::deserialize(bytes)?;
    let digest: u64 = graph_digest(graph, opts, force_committed);
    if parts.n_wires != graph.wires.len() || parts.n_gates != graph.gates.len() || parts.digest
        != digest {
        return Err(
            CompileCacheError::StateMismatch {
                cached_wires: parts.n_wires,
                cached_gates: parts.n_gates,
                cached_digest: parts.digest,
                built_wires: graph.wires.len(),
                built_gates: graph.gates.len(),
                built_digest: digest,
            },
        );
    }
    match parts.constraint_system.validate() {
        Ok(()) => Ok(parts),
        Err(e) => Err(CompileCacheError::Validation(e)),
    }
}

/// The same construction accepts its own cache.
pub proof fn law_own_cache_is_accepted(
    v: Payload,
    graph: GateGraph,
    opts: Options,
    force_committed: Set<usize>,
)
    requires
        state_matches(v, graph, opts, force_committed),
        v.constraint_system.valid(),
        ConstraintSystem::accepted(v.constraint_system),
        sizes_fit(field_tokens(v)),
    ensures
        load_outcome(cache_bytes(v), graph, opts, force_committed) == Ok::<Payload, Refusal>(v),
{
    law_cache_round_trip(v);
    law_no_error_iff_valid(v.constraint_system);
}

/// A state with another number of wires or gates, or with another digest, refuses the cache, and
/// says what differs.
pub proof fn law_other_state_is_refused(
    v: Payload,
    graph: GateGraph,
    opts: Options,
    force_committed: Set<usize>,
)
    requires
        !state_matches(v, graph, opts, force_committed),
        ConstraintSystem::accepted(v.constraint_system),
        sizes_fit(field_tokens(v)),
    ensures
        load_outcome(cache_bytes(v), graph, opts, force_committed) == Err::<Payload, Refusal>(
            Refusal::StateMismatch {
                cached_wires: v.n_wires,
                cached_gates: v.n_gates,
                cached_digest: v.digest,
                built_wires: graph.wires@.len() as usize,
                built_gates: graph.gates@.len() as usize,
                built_digest: state_digest(graph, opts, force_committed),
            },
        ),
{
    law_cache_round_trip(v);
}

/// A cache is refused on one option alone, whichever it is.
pub proof fn law_option_change_is_refused(
    v: Payload,
    graph: GateGraph,
    written: Options,
    loaded: Options,
    force_committed: Set<usize>,
    at: int,
)
    requires
        state_matches(v, graph, written, force_committed),
        0 <= at < 7,
        options_words(written)[at] != options_words(loaded)[at],
        forall|i: int|
            0 <= i < 7 && i != at ==> #[trigger] options_words(written)[i] == options_words(
                loaded,
            )[i],
        ConstraintSystem::accepted(v.constraint_system),
        sizes_fit(field_tokens(v)),
    ensures
        load_outcome(cache_bytes(v), graph, loaded, force_committed) matches Err(
            Refusal::StateMismatch { .. },
        ),
{
    law_digest_detects_an_option(graph, written, loaded, force_committed, at);
    law_other_state_is_refused(v, graph, loaded, force_committed);
}

/// A cache that was written with no wire force-committed is refused where one is, and one that was
/// written with a wire force-committed is refused where none is.
pub proof fn law_force_commit_is_refused(
    v: Payload,
    graph: GateGraph,
    opts: Options,
    index: usize,
)
    requires
        index <= u32::MAX,
        ConstraintSystem::accepted(v.constraint_system),
        sizes_fit(field_tokens(v)),
    ensures
        state_matches(v, graph, opts, Set::empty()) ==> (load_outcome(
            cache_bytes(v),
            graph,
            opts,
            set![index],
        ) matches Err(Refusal::StateMismatch { .. })),
        state_matches(v, graph, opts, set![index]) ==> (load_outcome(
            cache_bytes(v),
            graph,
            opts,
            Set::empty(),
        ) matches Err(Refusal::StateMismatch { .. })),
{
    law_force_commit_is_detected(graph, opts, index);
    if state_matches(v, graph, opts, Set::empty()) {
        law_other_state_is_refused(v, graph, opts, set![index]);
    }
    if state_matches(v, graph, opts, set![index]) {
        law_other_state_is_refused(v, graph, opts, Set::empty());
    }
}

} // verus!
