//! The compilation cache round-trips, and a cache written for a different builder state, by a
//! different crate version, or corrupted in transit is refused.

use binius::circuit::builder::CircuitBuilder;
use binius::compile_cache::cache::{CacheWrite, CompileCacheParts, ValueVecLayout, PKG_VERSION};
use binius::compile_cache::checksum::payload_checksum;
use binius::compile_cache::digest::{graph_digest, Options};
use binius::compile_cache::error::CompileCacheError;
use binius::compile_cache::load::load;
use binius::compile_cache::wire_mapping::WireMapping;
use binius::compile_cache::wire_set::WireSet;
use binius::constraint_system::validate::ConstraintSystemError;
use binius::constraint_system::{AndConstraint, ConstraintSystem, ShiftedValueIndex, ValueIndex};
use binius::ir::{GateBody, Opcode, Wire, WireKind};
use binius::serialization::format::{SerializationError, SerializeBytes};

const SPLIT_HINT: u32 = 0x5711;

/// A builder's state: a construction, the options and the wires that must stay readable.
struct State {
    b: CircuitBuilder,
    opts: Options,
    force_committed: WireSet,
    /// The wires that gates made and that are part of the public interface all the same.
    promoted: Vec<Wire>,
}

impl State {
    fn new(b: CircuitBuilder) -> Self {
        State::with_opts(b, Options::default())
    }

    fn with_opts(b: CircuitBuilder, opts: Options) -> Self {
        State {
            b,
            opts,
            force_committed: WireSet::new(),
            promoted: Vec::new(),
        }
    }

    fn digest(&self) -> u64 {
        graph_digest(&self.b.graph, &self.opts, &self.force_committed)
    }

    fn load(&self, bytes: &[u8]) -> Result<CompileCacheParts, CompileCacheError> {
        load(bytes, &self.b.graph, &self.opts, &self.force_committed)
    }
}

/// What compiling a circuit yields.
struct Outputs {
    constraint_system: ConstraintSystem,
    value_vec_layout: ValueVecLayout,
    wire_mapping: WireMapping,
    n_mapped: usize,
    inout: Vec<Wire>,
    bytecode: Vec<u8>,
    n_eval_insn: usize,
    scratch_peak_live: usize,
    scratch_pooled: bool,
}

/// A stand-in for the passes: every wire gets a word, every bitwise and a constraint, and
/// `n_interned` constants are added that the construction never made.
fn compile(state: &State, n_interned: usize) -> Outputs {
    let kinds = &state.b.graph.wires;
    let mut mapping = WireMapping::with_default(ValueIndex::scratch(0));
    let mut constants = Vec::new();
    let mut inout = Vec::new();
    let mut n_private = 0u32;
    let mut places = Vec::new();
    for (i, kind) in kinds.iter().enumerate() {
        let place = match kind {
            WireKind::Constant(word) => {
                constants.push(*word);
                ValueIndex::constant(constants.len() as u32 - 1)
            }
            WireKind::Inout => {
                inout.push(Wire { index: i });
                ValueIndex::inout(inout.len() as u32 - 1)
            }
            _ if state.promoted.contains(&Wire { index: i }) => {
                inout.push(Wire { index: i });
                ValueIndex::inout(inout.len() as u32 - 1)
            }
            _ => {
                n_private += 1;
                ValueIndex::private(n_private - 1)
            }
        };
        mapping.set(Wire { index: i }, place);
        places.push(place);
    }
    for k in 0..n_interned {
        constants.push(k as u64);
        mapping.set(
            Wire {
                index: kinds.len() + k,
            },
            ValueIndex::constant(constants.len() as u32 - 1),
        );
    }
    let term = |wire: &Wire| vec![ShiftedValueIndex::plain(places[wire.index])];
    let and_constraints = state
        .b
        .graph
        .gates
        .iter()
        .filter(|gate| gate.data.body == GateBody::Op(Opcode::Band))
        .map(|gate| {
            let w = &gate.data.wires;
            AndConstraint([term(&w[0]), term(&w[1]), term(&w[2])])
        })
        .collect();
    Outputs {
        value_vec_layout: ValueVecLayout {
            n_const: constants.len(),
            n_inout: inout.len(),
            n_witness: 1,
            n_internal: n_private as usize,
            n_scratch: 3,
        },
        constraint_system: ConstraintSystem {
            constants,
            n_inout: inout.len(),
            n_private: n_private as usize,
            zero_constraints: Vec::new(),
            and_constraints,
            imul_constraints: Vec::new(),
            bmul_constraints: Vec::new(),
        },
        wire_mapping: mapping,
        n_mapped: kinds.len() + n_interned,
        inout,
        bytecode: vec![7, 0, 255, 1, 2, 3],
        n_eval_insn: state.b.graph.gates.len(),
        scratch_peak_live: 11,
        scratch_pooled: state.opts.enable_scratch_pooling,
    }
}

fn cache_of(state: &State, outputs: &Outputs) -> Vec<u8> {
    let mut bytes = Vec::new();
    let parts = CacheWrite {
        n_wires: state.b.graph.wires.len(),
        n_gates: state.b.graph.gates.len(),
        digest: state.digest(),
        n_mapped: outputs.n_mapped,
        constraint_system: &outputs.constraint_system,
        value_vec_layout: &outputs.value_vec_layout,
        wire_mapping: &outputs.wire_mapping,
        inout: &outputs.inout,
        bytecode: &outputs.bytecode,
        n_eval_insn: outputs.n_eval_insn,
        scratch_peak_live: outputs.scratch_peak_live,
        scratch_pooled: outputs.scratch_pooled,
    };
    binius::compile_cache::cache::write(&parts, &mut bytes).unwrap();
    bytes
}

fn full_build(state: &State) -> (Outputs, Vec<u8>) {
    let outputs = compile(state, 0);
    let cache = cache_of(state, &outputs);
    (outputs, cache)
}

/// A small circuit covering every wire kind and both gate bodies: constants, inouts, witnesses,
/// gate-created internal wires, a hint call, and assertions that commit the hint's outputs.
/// Returns the wires a test reads or writes.
fn build_test_circuit(b: &mut CircuitBuilder) -> (Wire, Wire, Wire, Wire) {
    b.subcircuit("cache_test");
    let x = b.add_inout();
    let y = b.add_witness();
    let k = b.add_constant(0xDEAD_BEEF_CAFE_F00D);
    let masked = b.band(x, k);
    let sum = b.iadd_32(masked, y);
    let halves = b.call_hint(SPLIT_HINT, Vec::new(), vec![sum], 2);
    let (lo, hi) = (halves[0], halves[1]);
    // Recombine the hint's outputs and pin them to the value they split, so the hint wires are
    // committed and a wrong hint execution fails witness population.
    let shifted = b.shl(hi, 32);
    let recombined = b.bxor(lo, shifted);
    b.assert_eq("split_recombines", recombined, sum);
    (x, y, lo, hi)
}

/// The wire on which the test circuit puts its halves together again.
fn recombined(b: &CircuitBuilder) -> Wire {
    let gate = b
        .graph
        .gates
        .iter()
        .find(|gate| gate.data.body == GateBody::Op(Opcode::Bxor))
        .unwrap();
    gate.data.wires[2]
}

/// The state of a test circuit. A wire that a gate made is part of the public interface, so the
/// cached list carries it as well as the declared one.
fn state_of(b: CircuitBuilder) -> State {
    let mut state = State::new(b);
    state.promoted.push(recombined(&state.b));
    state
}

fn test_state() -> State {
    let mut b = CircuitBuilder::new();
    build_test_circuit(&mut b);
    state_of(b)
}

/// Re-seals the trailer of a cache of which a field was spliced, so the header checks behind the
/// checksum stay individually pinned. Written out on its own, to hold the checksum to it.
fn refresh_checksum(bytes: &mut [u8]) {
    const PRIME: u64 = 0x0000_0100_0000_01b3;
    let body_len = bytes.len() - 8;
    let body = &bytes[..body_len];
    let mut h = 0xcbf2_9ce4_8422_2325_u64 ^ body.len() as u64;
    let mut chunks = body.chunks_exact(8);
    for chunk in &mut chunks {
        h = (h ^ u64::from_le_bytes(chunk.try_into().unwrap())).wrapping_mul(PRIME);
    }
    let mut tail = [0u8; 8];
    tail[..chunks.remainder().len()].copy_from_slice(chunks.remainder());
    h = (h ^ u64::from_le_bytes(tail)).wrapping_mul(PRIME);
    bytes[body_len..].copy_from_slice(&h.to_le_bytes());
}

fn cs_bytes(cs: &ConstraintSystem) -> Vec<u8> {
    let mut buf = Vec::new();
    cs.serialize(&mut buf).unwrap();
    buf
}

/// Fill the two input wires, run the hint, populate, and read back the hint's output wires.
fn populate(b: &CircuitBuilder, wires: (Wire, Wire, Wire, Wire), x: u64, y: u64) -> (u64, u64) {
    let (x_wire, y_wire, lo, hi) = wires;
    let mut filler = b.new_witness_filler();
    filler.set(x_wire, x);
    filler.set(y_wire, y);
    let hint = b
        .graph
        .gates
        .iter()
        .find(|gate| gate.data.body == GateBody::Hint(SPLIT_HINT))
        .unwrap();
    // The hint splits its input; the gates before it have computed that.
    let _ = b.populate_wire_witness(&mut filler);
    let sum = filler.get(hint.data.wires[0]);
    filler.set(lo, sum & 0xFFFF_FFFF);
    filler.set(hi, sum >> 32);
    b.populate_wire_witness(&mut filler)
        .expect("population succeeds");
    (filler.get(lo), filler.get(hi))
}

#[test]
fn cached_build_matches_full_build() {
    let mut full_b = CircuitBuilder::new();
    let full_wires = build_test_circuit(&mut full_b);
    let full_state = state_of(full_b);
    let (full, cache) = full_build(&full_state);

    let mut cached_b = CircuitBuilder::new();
    let cached_wires = build_test_circuit(&mut cached_b);
    let cached_state = state_of(cached_b);
    let cached = cached_state
        .load(&cache)
        .expect("the same construction accepts its own cache");

    // Requesting a cache does not perturb the build: a plain build of the same construction
    // produces the identical constraint system.
    let plain = compile(&test_state(), 0);
    assert_eq!(
        cs_bytes(&full.constraint_system),
        cs_bytes(&plain.constraint_system)
    );

    // The constraint systems are byte-identical, so anything proven against one verifies
    // against the other.
    assert_eq!(
        cs_bytes(&full.constraint_system),
        cs_bytes(&cached.constraint_system)
    );
    // The public interface is the same wires in the same order.
    assert_eq!(full.inout, cached.inout);
    assert_eq!(cached.inout, [full_wires.0, recombined(&full_state.b)]);
    assert_eq!(full.n_eval_insn, cached.n_eval_insn);
    assert_eq!(full.bytecode, cached.bytecode);
    assert_eq!(full.value_vec_layout, cached.value_vec_layout);
    assert_eq!(full.scratch_pooled, cached.scratch_pooled);
    for index in 0..full.n_mapped + 3 {
        assert_eq!(
            full.wire_mapping.get(Wire { index }),
            cached.wire_mapping.get(Wire { index })
        );
    }
    assert_eq!(
        cached.wire_mapping.get(Wire {
            index: full.n_mapped
        }),
        ValueIndex::scratch(0)
    );

    // Witness generation agrees, hint execution included.
    let inputs = (0x0123_4567_89AB_CDEF, 0x0000_0000_1111_2222);
    assert_eq!(
        populate(&full_state.b, full_wires, inputs.0, inputs.1),
        populate(&cached_state.b, cached_wires, inputs.0, inputs.1)
    );
}

#[test]
fn the_interface_keeps_its_order() {
    // The promoted wire stands before the declared one, which was made first.
    let state = test_state();
    let mut outputs = compile(&state, 0);
    outputs.inout.reverse();
    let promoted = recombined(&state.b);
    assert_eq!(outputs.inout[0], promoted);
    assert!(outputs.inout[0].index > outputs.inout[1].index);
    let cached = state
        .load(&cache_of(&state, &outputs))
        .expect("round trip");
    assert_eq!(cached.inout, outputs.inout);
    assert_eq!(cached.wire_mapping.get(promoted), ValueIndex::inout(1));
}

#[test]
fn the_widest_interface_index_round_trips() {
    let state = test_state();
    let mut outputs = compile(&state, 0);
    outputs.inout.push(Wire {
        index: u32::MAX as usize,
    });
    let cached = state
        .load(&cache_of(&state, &outputs))
        .expect("round trip");
    assert_eq!(cached.inout, outputs.inout);
}

#[test]
fn cache_for_a_different_graph_is_refused() {
    let state = test_state();
    let (_, cache) = full_build(&state);

    // One extra gate: the counts and digest both move.
    let mut b = CircuitBuilder::new();
    let wires = build_test_circuit(&mut b);
    let _ = b.band(wires.0, wires.1);
    let drifted = State::new(b);
    match drifted.load(&cache) {
        Err(CompileCacheError::StateMismatch {
            cached_wires,
            cached_gates,
            cached_digest,
            built_wires,
            built_gates,
            built_digest,
        }) => {
            assert_eq!(cached_wires + 1, built_wires);
            assert_eq!(cached_gates + 1, built_gates);
            assert_eq!(cached_digest, state.digest());
            assert_eq!(built_digest, drifted.digest());
            assert_ne!(cached_digest, built_digest);
        }
        Err(other) => panic!("expected StateMismatch, got {other:?}"),
        Ok(_) => panic!("a drifted graph accepted the cache"),
    }
}

#[test]
fn same_shape_different_constant_is_refused() {
    // Same wire and gate counts; only a constant's value differs. Only the digest catches it.
    let build_with = |c: u64| {
        let mut b = CircuitBuilder::new();
        let x = b.add_inout();
        let k = b.add_constant(c);
        let y = b.band(x, k);
        b.assert_eq("pin", y, y);
        State::new(b)
    };
    let (_, cache) = full_build(&build_with(1));
    match build_with(2).load(&cache) {
        Err(CompileCacheError::StateMismatch { .. }) => {}
        Err(other) => panic!("expected StateMismatch, got {other:?}"),
        Ok(_) => panic!("a different constant accepted the cache"),
    }
}

#[test]
fn corrupt_bytes_are_refused() {
    let (_, cache) = full_build(&test_state());

    for bytes in [&[][..], &cache[..4], &cache[..cache.len() - 1]] {
        match test_state().load(bytes) {
            Err(CompileCacheError::Deserialize(_)) => {}
            Err(other) => panic!("expected a deserialize error, got {other:?}"),
            Ok(_) => panic!("corrupt bytes accepted"),
        }
    }

    // A single bit flipped anywhere in the payload, mid-file and in the trailing checksum itself,
    // is refused by the checksum, not loaded as a subtly wrong circuit.
    for flip_at in [cache.len() / 2, cache.len() - 1] {
        let mut bytes = cache.clone();
        bytes[flip_at] ^= 0x01;
        match test_state().load(&bytes) {
            Err(CompileCacheError::Deserialize(_)) => {}
            Err(other) => panic!("expected a deserialize error, got {other:?}"),
            Ok(_) => panic!("a flipped payload bit was accepted"),
        }
    }
}

#[test]
fn every_changed_byte_is_refused() {
    let (_, cache) = full_build(&test_state());
    for at in 0..cache.len() {
        let mut bytes = cache.clone();
        bytes[at] = bytes[at].wrapping_add(1);
        match CompileCacheParts::deserialize(&bytes) {
            Err(CompileCacheError::Deserialize(SerializationError::InvalidConstruction {
                name,
            })) => {
                let expected = if at < 4 {
                    "compile_cache::MAGIC"
                } else {
                    "compile_cache::checksum"
                };
                assert_eq!(name, expected);
            }
            Err(other) => panic!("byte {at}: {other:?}"),
            Ok(_) => panic!("byte {at} was changed and accepted"),
        }
    }
}

#[test]
fn options_change_is_refused() {
    let (_, cache) = full_build(&test_state());
    // Scratch pooling changes nothing about construction: the graph is byte-identical. But it
    // decides the compiled layout and which wires a witness filler may read, so the cache must be
    // refused on the option alone.
    let mut opts = Options::default();
    opts.enable_scratch_pooling = false;
    let mut b = CircuitBuilder::new();
    build_test_circuit(&mut b);
    let loader = State::with_opts(b, opts);
    match loader.load(&cache) {
        Err(CompileCacheError::StateMismatch { .. }) => {}
        Err(other) => panic!("expected StateMismatch, got {other:?}"),
        Ok(_) => panic!("different builder options accepted the cache"),
    }
}

#[test]
fn each_option_changes_the_digest() {
    let state = test_state();
    let d = Options::default();
    let flipped = [
        Options {
            enable_gate_fusion: !d.enable_gate_fusion,
            ..d
        },
        Options {
            enable_constant_propagation: !d.enable_constant_propagation,
            ..d
        },
        Options {
            enable_common_subexpression_elimination: !d.enable_common_subexpression_elimination,
            ..d
        },
        Options {
            enable_dead_code_elimination: !d.enable_dead_code_elimination,
            ..d
        },
        Options {
            enable_algebraic_folding: !d.enable_algebraic_folding,
            ..d
        },
        Options {
            enable_scratch_pooling: !d.enable_scratch_pooling,
            ..d
        },
        Options {
            enable_zero_propagation: !d.enable_zero_propagation,
            ..d
        },
    ];
    for opts in flipped {
        let digest = graph_digest(&state.b.graph, &opts, &state.force_committed);
        assert_ne!(digest, state.digest());
    }
}

#[test]
fn force_commit_drift_is_refused() {
    let (_, cache) = full_build(&test_state());
    // Same graph, byte for byte; the only change is which wires must stay readable, which changes
    // the compiled layout, so the cache must be refused.
    let mut b = CircuitBuilder::new();
    let (_, _, lo, _) = build_test_circuit(&mut b);
    let mut loader = State::new(b);
    assert!(loader.force_committed.insert(lo));
    assert!(!loader.force_committed.insert(lo));
    match loader.load(&cache) {
        Err(CompileCacheError::StateMismatch { .. }) => {}
        Err(other) => panic!("expected StateMismatch, got {other:?}"),
        Ok(_) => panic!("a changed force-committed set accepted the cache"),
    }
}

#[test]
fn a_force_committed_wire_changes_the_digest_under_all_options() {
    let state = test_state();
    for flags in 0..128u32 {
        let on = |i: u32| flags >> i & 1 == 1;
        let opts = Options {
            enable_gate_fusion: on(0),
            enable_constant_propagation: on(1),
            enable_common_subexpression_elimination: on(2),
            enable_dead_code_elimination: on(3),
            enable_algebraic_folding: on(4),
            enable_scratch_pooling: on(5),
            enable_zero_propagation: on(6),
        };
        let none = graph_digest(&state.b.graph, &opts, &WireSet::new());
        for index in [0, 5, 255, 256, 70_000] {
            let mut one = WireSet::new();
            one.insert(Wire { index });
            assert_ne!(none, graph_digest(&state.b.graph, &opts, &one));
        }
    }
}

#[test]
fn a_wire_set_lists_its_wires_by_ascending_index() {
    let mut set = WireSet::new();
    assert_eq!(set.iter(), []);
    for index in [900, 3, 64, 3, 0] {
        set.insert(Wire { index });
    }
    let indices: Vec<usize> = set.iter().iter().map(|wire| wire.index).collect();
    assert_eq!(indices, [0, 3, 64, 900]);
}

#[test]
fn the_digest_does_not_depend_on_the_order_of_insertion() {
    let state = test_state();
    let mut a = WireSet::new();
    let mut b = WireSet::new();
    for index in [1, 5, 2] {
        a.insert(Wire { index });
    }
    for index in [2, 1, 5, 1] {
        b.insert(Wire { index });
    }
    let digest = |set: &WireSet| graph_digest(&state.b.graph, &state.opts, set);
    assert_eq!(digest(&a), digest(&b));
    assert_ne!(digest(&a), state.digest());
}

/// The words that a digest is about, one by one, through a plain FNV-1a.
#[test]
fn the_digest_is_fnv_over_the_words_of_the_state() {
    let mut b = CircuitBuilder::new();
    let x = b.add_inout();
    let k = b.add_constant(0x0102_0304_0506_0708);
    let y = b.rotl(x, 9);
    b.assert_eq("pin", y, k);
    b.call_hint(77, vec![4, 5], vec![y], 1);
    let mut set = WireSet::new();
    set.insert(k);
    let digest = graph_digest(&b.graph, &Options::default(), &set);
    let words: Vec<u64> = vec![
        1, 0, 1, 1, 1, 1, 1, // options
        1, 1, // force-committed wires
        4, 2, 1, 0x0102_0304_0506_0708, 4, 4, // wires
        3, // gates
        0, 0, 1, 6, 2, 0, 2, 1, 9, 0, // rotation
        0, 1, 1, 11, 2, 2, 1, 0, 0, // assertion
        0, 0, 2, 77, 2, 2, 3, 0, 2, 4, 5, // hint
    ];
    let mut h = 0xcbf2_9ce4_8422_2325u64;
    for word in words {
        for byte in word.to_le_bytes() {
            h = (h ^ byte as u64).wrapping_mul(0x0000_0100_0000_01b3);
        }
    }
    assert_eq!(digest, h);
}

#[test]
fn interned_constants_round_trip() {
    // With constant propagation enabled the passes fold gates and can intern constants the
    // construction never made, so the cached wire mapping runs past the constructed graph's wire
    // count: the one case where the mapping length and the fingerprint's wire count differ.
    let opts = || {
        let mut opts = Options::default();
        opts.enable_constant_propagation = true;
        opts
    };
    let build = |b: &mut CircuitBuilder| {
        let x = b.add_inout();
        let out_io = b.add_inout();
        let k1 = b.add_constant(0x1111_2222_3333_4444);
        let k2 = b.add_constant(0x0F0F_0F0F_0F0F_0F0F);
        let folded = b.band(k1, k2);
        let out = b.bxor(x, folded);
        b.assert_eq("out", out_io, out);
        (x, out_io)
    };

    let mut full_b = CircuitBuilder::new();
    build(&mut full_b);
    let full_state = State::with_opts(full_b, opts());
    let full = compile(&full_state, 1);
    assert_eq!(full.n_mapped, full_state.b.graph.wires.len() + 1);
    let cache = cache_of(&full_state, &full);

    let mut b = CircuitBuilder::new();
    let (x, out_io) = build(&mut b);
    let loader = State::with_opts(b, opts());
    let cached = loader
        .load(&cache)
        .expect("a constant-folding build accepts its own cache");

    assert_eq!(
        cs_bytes(&full.constraint_system),
        cs_bytes(&cached.constraint_system)
    );
    assert_eq!(
        cached.wire_mapping.get(Wire {
            index: full.n_mapped - 1
        }),
        ValueIndex::constant(2)
    );
    let input = 0xAAAA_BBBB_CCCC_DDDD_u64;
    let expected = input ^ (0x1111_2222_3333_4444 & 0x0F0F_0F0F_0F0F_0F0F);
    let mut filler = loader.b.new_witness_filler();
    filler.set(x, input);
    filler.set(out_io, expected);
    loader
        .b
        .populate_wire_witness(&mut filler)
        .expect("the folded constant evaluates correctly");
}

#[test]
fn wrong_magic_and_version_are_refused() {
    let (_, cache) = full_build(&test_state());

    // Byte 0 is the magic, byte 4 the format version; each flip is re-sealed under a fresh
    // checksum, and the error's field name is asserted, so the header check itself does the
    // refusing.
    for (corrupt_at, expected) in [
        (0usize, "compile_cache::MAGIC"),
        (4, "compile_cache::CACHE_VERSION"),
    ] {
        let mut bytes = cache.clone();
        bytes[corrupt_at] ^= 0xFF;
        refresh_checksum(&mut bytes);
        match test_state().load(&bytes) {
            Err(CompileCacheError::Deserialize(SerializationError::InvalidConstruction {
                name,
            })) => {
                assert_eq!(name, expected);
            }
            Err(other) => panic!("expected the {expected} check to refuse, got {other:?}"),
            Ok(_) => panic!("corrupt header accepted"),
        }
    }

    // Trailing garbage after a valid cache is refused too.
    let mut bytes = cache;
    bytes.push(0);
    match test_state().load(&bytes) {
        Err(CompileCacheError::Deserialize(_)) => {}
        Err(other) => panic!("expected a deserialize error, got {other:?}"),
        Ok(_) => panic!("trailing bytes accepted"),
    }
}

#[test]
fn different_crate_version_is_refused() {
    let (_, cache) = full_build(&test_state());

    // Header layout: magic (4), format version (4), crate version as len-prefixed string. Bump the
    // last character of the crate version in place and re-seal the checksum, so the version check
    // itself does the refusing.
    let mut bytes = cache;
    let len = u32::from_le_bytes(bytes[8..12].try_into().unwrap()) as usize;
    let last = 12 + len - 1;
    bytes[last] = bytes[last].wrapping_add(1);
    refresh_checksum(&mut bytes);
    match test_state().load(&bytes) {
        Err(CompileCacheError::VersionMismatch { cached, current }) => {
            assert_eq!(current, PKG_VERSION);
            assert_ne!(cached, current);
            assert_eq!(cached, "0.1.1");
        }
        Err(other) => panic!("expected VersionMismatch, got {other:?}"),
        Ok(_) => panic!("a different crate version accepted the cache"),
    }
}

#[test]
fn renamed_paths_are_accepted() {
    // Same structure, different subcircuit name: path and assertion names are diagnostic
    // metadata, deliberately outside the digest, so the cache is accepted and failures report
    // under the loader's own names.
    let build_named = |name: &str| {
        let mut b = CircuitBuilder::new();
        b.subcircuit(name);
        let x = b.add_inout();
        let out_io = b.add_inout();
        let k = b.add_constant(0x5555_5555_5555_5555);
        let out = b.band(x, k);
        b.assert_eq("pin", out_io, out);
        (State::new(b), x, out_io)
    };

    let (writer, _, _) = build_named("original");
    let (_, cache) = full_build(&writer);

    let (loader, x, out_io) = build_named("renamed");
    loader
        .load(&cache)
        .expect("a renamed but structurally identical construction accepts the cache");

    let mut bad = loader.b.new_witness_filler();
    bad.set(x, 0xFFFF_0000_FFFF_0000);
    bad.set(out_io, 0);
    let err = loader
        .b
        .populate_wire_witness(&mut bad)
        .expect_err("the pinned output is wrong");
    let msg = format!("{}.{}", err.origin, err.assertion);
    assert!(
        msg.contains("renamed.pin"),
        "assertion failures report under the loader's names, got: {msg}"
    );
}

#[test]
fn scratch_peak_live_round_trips() {
    let (full, cache) = full_build(&test_state());
    let cached = test_state().load(&cache).expect("round trip");
    assert_eq!(full.scratch_peak_live, cached.scratch_peak_live);
}

#[test]
fn an_invalid_constraint_system_is_refused() {
    let state = test_state();
    let mut outputs = compile(&state, 0);
    outputs.constraint_system.and_constraints[0].0[2].push(ShiftedValueIndex::plain(
        ValueIndex::scratch(0),
    ));
    let cache = cache_of(&state, &outputs);
    match state.load(&cache) {
        Err(CompileCacheError::Validation(e)) => {
            assert_eq!(
                e,
                ConstraintSystemError::InvalidTerm {
                    constraint_type: "and",
                    constraint_index: 0,
                    operand_index: 2,
                    term_index: 1,
                }
            );
        }
        Err(other) => panic!("expected Validation, got {other:?}"),
        Ok(_) => panic!("an invalid constraint system was accepted"),
    }
}

#[test]
fn a_cache_is_appended_to_what_the_buffer_holds() {
    let state = test_state();
    let outputs = compile(&state, 0);
    let alone = cache_of(&state, &outputs);
    assert_eq!(&alone[..4], b"B64C");
    assert_eq!(&alone[4..8], &[1, 0, 0, 0]);
    assert_eq!(&alone[8..12], &[5, 0, 0, 0]);
    assert_eq!(&alone[12..17], b"0.1.0");
    let n = alone.len();
    assert_eq!(
        u64::from_le_bytes(alone[n - 8..].try_into().unwrap()),
        payload_checksum(&alone[..n - 8])
    );
    let mut bytes = vec![1, 2, 3];
    let parts = CacheWrite {
        n_wires: state.b.graph.wires.len(),
        n_gates: state.b.graph.gates.len(),
        digest: state.digest(),
        n_mapped: outputs.n_mapped,
        constraint_system: &outputs.constraint_system,
        value_vec_layout: &outputs.value_vec_layout,
        wire_mapping: &outputs.wire_mapping,
        inout: &outputs.inout,
        bytecode: &outputs.bytecode,
        n_eval_insn: outputs.n_eval_insn,
        scratch_peak_live: outputs.scratch_peak_live,
        scratch_pooled: outputs.scratch_pooled,
    };
    binius::compile_cache::cache::write(&parts, &mut bytes).unwrap();
    assert_eq!(&bytes[..3], &[1, 2, 3]);
    assert_eq!(&bytes[3..], &alone[..]);
}

#[test]
fn a_length_that_does_not_fit_is_not_written() {
    let state = test_state();
    let outputs = compile(&state, 0);
    let mut bytes = Vec::new();
    let parts = CacheWrite {
        n_wires: 1 << 32,
        n_gates: 0,
        digest: 0,
        n_mapped: 0,
        constraint_system: &outputs.constraint_system,
        value_vec_layout: &outputs.value_vec_layout,
        wire_mapping: &outputs.wire_mapping,
        inout: &outputs.inout,
        bytecode: &outputs.bytecode,
        n_eval_insn: 0,
        scratch_peak_live: 0,
        scratch_pooled: false,
    };
    assert_eq!(
        binius::compile_cache::cache::write(&parts, &mut bytes),
        Err(SerializationError::UsizeTooLarge { size: 1 << 32 })
    );
}

#[test]
fn a_lying_interface_length_is_refused() {
    let state = test_state();
    let mut outputs = compile(&state, 0);
    outputs.inout = Vec::new();
    outputs.bytecode = Vec::new();
    let mut bytes = cache_of(&state, &outputs);
    // From the end: checksum (8), pooled (1), peak (4), instructions (4), bytecode length (4),
    // interface length (4).
    let at = bytes.len() - 25;
    bytes[at] = 4;
    refresh_checksum(&mut bytes);
    match CompileCacheParts::deserialize(&bytes) {
        Err(CompileCacheError::Deserialize(SerializationError::InvalidConstruction { name })) => {
            assert_eq!(name, "compile_cache::n_inout");
        }
        _ => panic!("a lying length was accepted"),
    }
}

#[test]
fn bytes_behind_the_fields_are_refused() {
    let (_, cache) = full_build(&test_state());
    let mut bytes = cache;
    let n = bytes.len();
    bytes.insert(n - 8, 0);
    refresh_checksum(&mut bytes);
    match CompileCacheParts::deserialize(&bytes) {
        Err(CompileCacheError::Deserialize(SerializationError::InvalidConstruction { name })) => {
            assert_eq!(name, "compile_cache::trailing");
        }
        _ => panic!("trailing bytes were accepted"),
    }
}

#[test]
fn the_checksum_pads_the_last_word_with_zeros() {
    const PRIME: u64 = 0x0000_0100_0000_01b3;
    const BASIS: u64 = 0xcbf2_9ce4_8422_2325;
    assert_eq!(payload_checksum(&[]), BASIS.wrapping_mul(PRIME));
    assert_eq!(
        payload_checksum(&[1, 2]),
        (BASIS ^ 2 ^ 0x0201).wrapping_mul(PRIME)
    );
    assert_eq!(
        payload_checksum(&[1, 0, 0, 0, 0, 0, 0, 2]),
        ((BASIS ^ 8 ^ 0x0200_0000_0000_0001).wrapping_mul(PRIME)).wrapping_mul(PRIME)
    );
    assert_ne!(payload_checksum(&[0]), payload_checksum(&[0, 0]));
}

#[test]
fn optimized_away_gates_still_round_trip() {
    // The two identical `band` gates would collapse in the passes. The cache fingerprint is taken
    // before the passes run, so the loading builder, which runs no passes and still holds both
    // gates, matches the cache all the same.
    let build = || {
        let mut b = CircuitBuilder::new();
        let x = b.add_inout();
        let out_io = b.add_inout();
        let k1 = b.add_constant(0xFF00_FF00_FF00_FF00);
        let dup_a = b.band(x, k1);
        let dup_b = b.band(x, k1);
        let mixed = b.iadd_32(dup_a, dup_b);
        let out = b.bxor(mixed, dup_a);
        b.assert_eq("out", out_io, out);
        (State::new(b), x, out_io)
    };

    let (full_state, _, _) = build();
    let mut full = compile(&full_state, 0);
    full.constraint_system.and_constraints.truncate(1);
    let cache = cache_of(&full_state, &full);

    let (loader, x, out_io) = build();
    let cached = loader
        .load(&cache)
        .expect("a rewritten circuit accepts its own cache");
    assert_eq!(
        cs_bytes(&full.constraint_system),
        cs_bytes(&cached.constraint_system)
    );

    let input = 0x1234_5678_9ABC_DEF0_u64;
    let masked = input & 0xFF00_FF00_FF00_FF00;
    // `iadd_32` adds the two 32-bit halves independently, discarding each carry-out.
    let hi = ((masked >> 32) as u32).wrapping_add((masked >> 32) as u32) as u64;
    let lo = (masked as u32).wrapping_add(masked as u32) as u64;
    let expected = ((hi << 32) | lo) ^ masked;
    let mut filler = loader.b.new_witness_filler();
    filler.set(x, input);
    filler.set(out_io, expected);
    loader
        .b
        .populate_wire_witness(&mut filler)
        .expect("the deduplicated output pins correctly");

    let mut bad = loader.b.new_witness_filler();
    bad.set(x, input);
    bad.set(out_io, expected ^ 1);
    loader
        .b
        .populate_wire_witness(&mut bad)
        .expect_err("a wrong output must fail the assertion");
}
