//! The bytes of a compilation cache.

use vstd::prelude::*;
use vstd::slice::slice_subrange;

use crate::compile_cache::checksum::{checksum, payload_checksum};
use crate::compile_cache::error::{CompileCacheError, Refusal};
use crate::compile_cache::wire_mapping::WireMapping;
use crate::constraint_system::{ConstraintSystem, ConstraintSystemModel, ValueIndex};
use crate::ir::Wire;
use crate::serialization::buffers::{get_u32_le, get_u64_le, remaining};
use crate::serialization::format::{
    emit, emit_token, flat, group_format, lemma_emit_add, lemma_joined, lemma_split,
        DeserializeBytes,
    Parsed,
    SerializationError, SerializeBytes, Token, Written,
};
use crate::serialization::little_endian::{le_bytes, le_value};
use crate::serialization::primitives::{
    deserialize_items, items_tokens, parse_items, prepend, serialize_items,
};

verus! {

/// Format magic, so a foreign or truncated file fails loudly instead of deserializing garbage. A
/// cache begins with the literal bytes `B64C`.
pub const MAGIC: u32 = 0x4334_3642;

/// Version of the cache layout below. There is no compatibility between versions: a cache lives
/// and dies with the build that wrote it.
pub const CACHE_VERSION: u32 = 1;

/// The published version of this crate.
pub const PKG_VERSION: &'static str = "0.1.0";

/// The sizes of the parts of a compiled circuit's value vector.
#[derive(Clone, Copy, Debug, PartialEq, Eq, Structural)]
pub struct ValueVecLayout {
    pub n_const: usize,
    pub n_inout: usize,
    pub n_witness: usize,
    pub n_internal: usize,
    pub n_scratch: usize,
}

impl DeepView for ValueVecLayout {
    type V = ValueVecLayout;

    open spec fn deep_view(&self) -> ValueVecLayout {
        *self
    }
}

impl SerializeBytes for ValueVecLayout {
    open spec fn tokens(v: ValueVecLayout) -> Seq<Token> {
        usize::tokens(v.n_const) + (usize::tokens(v.n_inout) + (usize::tokens(v.n_witness) + (
        usize::tokens(v.n_internal) + usize::tokens(v.n_scratch))))
    }

    fn serialize(&self, out: &mut Vec<u8>) -> (result: Result<(), SerializationError>) {
        broadcast use lemma_emit_add;

        self.n_const.serialize(out)?;
        self.n_inout.serialize(out)?;
        self.n_witness.serialize(out)?;
        self.n_internal.serialize(out)?;
        self.n_scratch.serialize(out)
    }
}

impl DeserializeBytes for ValueVecLayout {
    open spec fn accepted(v: ValueVecLayout) -> bool {
        true
    }

    open spec fn parse(s: Seq<u8>) -> Parsed<ValueVecLayout> {
        match usize::parse(s) {
            Ok((n_const, s)) => match usize::parse(s) {
                Ok((n_inout, s)) => match usize::parse(s) {
                    Ok((n_witness, s)) => match usize::parse(s) {
                        Ok((n_internal, s)) => match usize::parse(s) {
                            Ok((n_scratch, s)) => Ok(
                                (
                                    ValueVecLayout {
                                        n_const,
                                        n_inout,
                                        n_witness,
                                        n_internal,
                                        n_scratch,
                                    },
                                    s,
                                ),
                            ),
                            Err(e) => Err(e),
                        },
                        Err(e) => Err(e),
                    },
                    Err(e) => Err(e),
                },
                Err(e) => Err(e),
            },
            Err(e) => Err(e),
        }
    }

    fn deserialize(buf: &mut &[u8]) -> (result: Result<ValueVecLayout, SerializationError>) {
        let n_const: usize = usize::deserialize(buf)?;
        let n_inout: usize = usize::deserialize(buf)?;
        let n_witness: usize = usize::deserialize(buf)?;
        let n_internal: usize = usize::deserialize(buf)?;
        let n_scratch: usize = usize::deserialize(buf)?;
        Ok(ValueVecLayout { n_const, n_inout, n_witness, n_internal, n_scratch })
    }

    proof fn law_canonical(s: Seq<u8>) {
        let s0 = s;
        usize::law_canonical(s0);
        if let Ok((n_const, s1)) = usize::parse(s0) {
            usize::law_canonical(s1);
            if let Ok((n_inout, s2)) = usize::parse(s1) {
                usize::law_canonical(s2);
                if let Ok((n_witness, s3)) = usize::parse(s2) {
                    usize::law_canonical(s3);
                    if let Ok((n_internal, s4)) = usize::parse(s3) {
                        usize::law_canonical(s4);
                        if let Ok((n_scratch, s5)) = usize::parse(s4) {
                            let t3 = usize::tokens(n_scratch);
                            lemma_joined(usize::tokens(n_internal), t3, s3, s4, s5);
                            let t2 = usize::tokens(n_internal) + t3;
                            lemma_joined(usize::tokens(n_witness), t2, s2, s3, s5);
                            let t1 = usize::tokens(n_witness) + t2;
                            lemma_joined(usize::tokens(n_inout), t1, s1, s2, s5);
                            let t0 = usize::tokens(n_inout) + t1;
                            lemma_joined(usize::tokens(n_const), t0, s0, s1, s5);
                        }
                    }
                }
            }
        }
    }

    proof fn law_round_trip(v: ValueVecLayout, rest: Seq<u8>) {
        let t4 = usize::tokens(v.n_scratch);
        let t3 = usize::tokens(v.n_internal) + t4;
        let t2 = usize::tokens(v.n_witness) + t3;
        let t1 = usize::tokens(v.n_inout) + t2;
        lemma_split(usize::tokens(v.n_const), t1, rest);
        lemma_split(usize::tokens(v.n_inout), t2, rest);
        lemma_split(usize::tokens(v.n_witness), t3, rest);
        lemma_split(usize::tokens(v.n_internal), t4, rest);
        usize::law_round_trip(v.n_const, flat(t1) + rest);
        usize::law_round_trip(v.n_inout, flat(t2) + rest);
        usize::law_round_trip(v.n_witness, flat(t3) + rest);
        usize::law_round_trip(v.n_internal, flat(t4) + rest);
        usize::law_round_trip(v.n_scratch, rest);
    }
}

/// What a cache records.
#[verifier::ext_equal]
pub ghost struct Payload {
    pub n_wires: usize,
    pub n_gates: usize,
    pub digest: u64,
    pub constraint_system: ConstraintSystemModel,
    pub value_vec_layout: ValueVecLayout,
    /// The value index of each wire, in index order.
    pub mapped: Seq<ValueIndex>,
    /// The indices of the wires of the public interface, the lowest four bytes of each.
    pub inout: Seq<u32>,
    pub bytecode: Seq<u8>,
    pub n_eval_insn: usize,
    pub scratch_peak_live: usize,
    pub scratch_pooled: bool,
}

/// The steps of writing the counts of the constructed graph.
pub open spec fn count_tokens(v: Payload) -> Seq<Token> {
    usize::tokens(v.n_wires) + (usize::tokens(v.n_gates) + (u64::tokens(v.digest) + seq![
        Token::Size(v.mapped.len()),
    ]))
}

/// The steps of writing what the passes yielded for the evaluation.
pub open spec fn evaluation_tokens(v: Payload) -> Seq<Token> {
    Vec::<u8>::tokens(v.bytecode) + (usize::tokens(v.n_eval_insn) + (usize::tokens(
        v.scratch_peak_live,
    ) + bool::tokens(v.scratch_pooled)))
}

/// The steps of writing the fields of a cache.
pub open spec fn field_tokens(v: Payload) -> Seq<Token> {
    count_tokens(v) + (ConstraintSystem::tokens(v.constraint_system) + (ValueVecLayout::tokens(
        v.value_vec_layout,
    ) + (items_tokens::<ValueIndex>(v.mapped) + (Vec::<u32>::tokens(v.inout) + evaluation_tokens(
        v,
    )))))
}

/// The steps of writing the versions of a cache.
pub open spec fn header_tokens(pkg_version: Seq<char>) -> Seq<Token> {
    u32::tokens(MAGIC) + (u32::tokens(CACHE_VERSION) + str::tokens(pkg_version))
}

/// The steps of writing all of a cache but its checksum.
pub open spec fn body_tokens(v: Payload) -> Seq<Token> {
    header_tokens(PKG_VERSION@) + field_tokens(v)
}

/// What writing a cache does to a buffer.
pub open spec fn written(bytes: Seq<u8>, v: Payload) -> Written {
    let body = emit(bytes, body_tokens(v));
    if body.error is Some {
        body
    } else {
        emit(body.bytes, u64::tokens(checksum(body.bytes.skip(bytes.len() as int))))
    }
}

/// The bytes of a cache.
pub open spec fn cache_bytes(v: Payload) -> Seq<u8> {
    let body = flat(body_tokens(v));
    body + le_bytes(checksum(body) as nat, 8)
}

/// The compilation outputs by reference, named at the call site so a transposed argument is a
/// compile error rather than a corrupt cache.
pub struct CacheWrite<'a> {
    pub n_wires: usize,
    pub n_gates: usize,
    pub digest: u64,
    pub n_mapped: usize,
    pub constraint_system: &'a ConstraintSystem,
    pub value_vec_layout: &'a ValueVecLayout,
    pub wire_mapping: &'a WireMapping,
    pub inout: &'a [Wire],
    pub bytecode: &'a [u8],
    pub n_eval_insn: usize,
    pub scratch_peak_live: usize,
    pub scratch_pooled: bool,
}

impl<'a> CacheWrite<'a> {
    /// What the cache is to record. The wire mapping is dense over the wires after the passes:
    /// one entry per wire, in index order.
    pub open spec fn payload(&self) -> Payload {
        Payload {
            n_wires: self.n_wires,
            n_gates: self.n_gates,
            digest: self.digest,
            constraint_system: self.constraint_system.deep_view(),
            value_vec_layout: *self.value_vec_layout,
            mapped: Seq::new(self.n_mapped as nat, |i: int| self.wire_mapping@[i as usize]),
            inout: self.inout@.map_values(|wire: Wire| wire.index as u32),
            bytecode: self.bytecode@,
            n_eval_insn: self.n_eval_insn,
            scratch_peak_live: self.scratch_peak_live,
            scratch_pooled: self.scratch_pooled,
        }
    }
}

/// Writes the value indices of the first wires.
fn write_mapping(mapping: &WireMapping, n_mapped: usize, out: &mut Vec<u8>) -> (result: Result<
    (),
    SerializationError,
>)
    ensures
        emit(
            old(out)@,
            items_tokens::<ValueIndex>(Seq::new(n_mapped as nat, |i: int| mapping@[i as usize])),
        ) == (Written { bytes: final(out)@, error: result.err() }),
{
    let ghost all = Seq::new(n_mapped as nat, |i: int| mapping@[i as usize]);
    let mut i: usize = 0;
    assert(all.skip(0) =~= all);
    while i < n_mapped
        invariant
            all == Seq::new(n_mapped as nat, |i: int| mapping@[i as usize]),
            i <= n_mapped,
            emit(old(out)@, items_tokens::<ValueIndex>(all)) == emit(
                out@,
                items_tokens::<ValueIndex>(all.skip(i as int)),
            ),
        decreases n_mapped - i,
    {
        let value_index = mapping.get(Wire { index: i });
        proof {
            let left = all.skip(i as int);
            assert(left.skip(1) =~= all.skip(i + 1));
            assert(left[0] == value_index);
            lemma_emit_add(
                out@,
                ValueIndex::tokens(left[0]),
                items_tokens::<ValueIndex>(left.skip(1)),
            );
        }
        value_index.serialize(out)?;
        i += 1;
    }
    Ok(())
}

/// Writes the wires of the public interface, after their number.
fn write_inout(inout: &[Wire], out: &mut Vec<u8>) -> (result: Result<(), SerializationError>)
    ensures
        emit(
            old(out)@,
            Vec::<u32>::tokens(inout@.map_values(|wire: Wire| wire.index as u32)),
        ) == (Written { bytes: final(out)@, error: result.err() }),
{
    let ghost all = inout@.map_values(|wire: Wire| wire.index as u32);
    proof {
        lemma_emit_add(out@, usize::tokens(all.len() as usize), items_tokens::<u32>(all));
    }
    inout.len().serialize(out)?;
    let mut i: usize = 0;
    assert(all.skip(0) =~= all);
    while i < inout.len()
        invariant
            all == inout@.map_values(|wire: Wire| wire.index as u32),
            i <= inout@.len(),
            emit(old(out)@, Vec::<u32>::tokens(all)) == emit(
                out@,
                items_tokens::<u32>(all.skip(i as int)),
            ),
        decreases inout@.len() - i,
    {
        proof {
            let left = all.skip(i as int);
            assert(left.skip(1) =~= all.skip(i + 1));
            assert(left[0] == inout@[i as int].index as u32);
            lemma_emit_add(out@, u32::tokens(left[0]), items_tokens::<u32>(left.skip(1)));
        }
        (inout[i].index as u32).serialize(out)?;
        i += 1;
    }
    Ok(())
}

/// Writes the versions.
fn write_header(out: &mut Vec<u8>) -> (result: Result<(), SerializationError>)
    ensures
        emit(old(out)@, header_tokens(PKG_VERSION@)) == (Written {
            bytes: final(out)@,
            error: result.err(),
        }),
{
    broadcast use lemma_emit_add;

    MAGIC.serialize(out)?;
    CACHE_VERSION.serialize(out)?;
    PKG_VERSION.serialize(out)
}

/// Writes the counts of the constructed graph.
fn write_counts(parts: &CacheWrite<'_>, out: &mut Vec<u8>) -> (result: Result<
    (),
    SerializationError,
>)
    ensures
        emit(old(out)@, count_tokens(parts.payload())) == (Written {
            bytes: final(out)@,
            error: result.err(),
        }),
{
    broadcast use lemma_emit_add;

    parts.n_wires.serialize(out)?;
    parts.n_gates.serialize(out)?;
    parts.digest.serialize(out)?;
    proof {
        broadcast use group_format;

        assert(usize::tokens(parts.n_mapped) == seq![Token::Size(parts.payload().mapped.len())]);
    }
    parts.n_mapped.serialize(out)
}

/// Writes what the passes yielded for the evaluation.
fn write_evaluation(parts: &CacheWrite<'_>, out: &mut Vec<u8>) -> (result: Result<
    (),
    SerializationError,
>)
    ensures
        emit(old(out)@, evaluation_tokens(parts.payload())) == (Written {
            bytes: final(out)@,
            error: result.err(),
        }),
{
    broadcast use lemma_emit_add;

    assert(parts.bytecode.deep_view() =~= parts.bytecode@);
    let n_bytes: usize = parts.bytecode.len();
    assert(usize::tokens(n_bytes) == seq![Token::Size(parts.bytecode@.len())]);
    n_bytes.serialize(out)?;
    serialize_items(parts.bytecode, out)?;
    parts.n_eval_insn.serialize(out)?;
    parts.scratch_peak_live.serialize(out)?;
    parts.scratch_pooled.serialize(out)
}

/// Serializes the compilation outputs, ending with a checksum of every byte before it.
pub fn write(parts: &CacheWrite<'_>, out: &mut Vec<u8>) -> (result: Result<(), SerializationError>)
    ensures
        written(old(out)@, parts.payload()) == (Written {
            bytes: final(out)@,
            error: result.err(),
        }),
{
    broadcast use lemma_emit_add;

    let start: usize = out.len();
    write_header(out)?;
    write_counts(parts, out)?;
    parts.constraint_system.serialize(out)?;
    parts.value_vec_layout.serialize(out)?;
    write_mapping(parts.wire_mapping, parts.n_mapped, out)?;
    write_inout(parts.inout, out)?;
    write_evaluation(parts, out)?;
    proof {
        lemma_emit_grows(old(out)@, body_tokens(parts.payload()));
    }
    let sum: u64 = payload_checksum(slice_subrange(out.as_slice(), start, out.len()));
    assert(out@.subrange(start as int, out@.len() as int) =~= out@.skip(start as int));
    sum.serialize(out)
}

/// Writing only appends.
proof fn lemma_emit_grows(bytes: Seq<u8>, tokens: Seq<Token>)
    ensures
        emit(bytes, tokens).bytes.len() >= bytes.len(),
    decreases tokens.len(),
{
    if tokens.len() > 0 {
        let first = emit_token(bytes, tokens[0]);
        if first.error is None {
            lemma_emit_grows(first.bytes, tokens.skip(1));
        }
    }
}

/// The counts of the constructed graph, and the number of mapped wires.
pub ghost struct Counts {
    pub n_wires: usize,
    pub n_gates: usize,
    pub digest: u64,
    pub n_mapped: usize,
}

/// What comes of reading the counts.
pub open spec fn parse_counts(s: Seq<u8>) -> Parsed<Counts> {
    match usize::parse(s) {
        Ok((n_wires, s)) => match usize::parse(s) {
            Ok((n_gates, s)) => match u64::parse(s) {
                Ok((digest, s)) => match usize::parse(s) {
                    Ok((n_mapped, s)) => Ok((Counts { n_wires, n_gates, digest, n_mapped }, s)),
                    Err(e) => Err(e),
                },
                Err(e) => Err(e),
            },
            Err(e) => Err(e),
        },
        Err(e) => Err(e),
    }
}

/// What comes of reading the wires of the public interface. Their number cannot promise more than
/// the buffer holds.
pub open spec fn parse_inout(s: Seq<u8>) -> Parsed<Seq<u32>> {
    match usize::parse(s) {
        Ok((n_inout, s)) => if n_inout * 4 > s.len() {
            Err((SerializationError::InvalidConstruction { name: "compile_cache::n_inout" }, s))
        } else {
            parse_items::<u32>(s, n_inout as nat)
        },
        Err(e) => Err(e),
    }
}

/// What the passes yielded for the evaluation.
pub ghost struct Evaluation {
    pub bytecode: Seq<u8>,
    pub n_eval_insn: usize,
    pub scratch_peak_live: usize,
    pub scratch_pooled: bool,
}

/// What comes of reading what the passes yielded for the evaluation.
pub open spec fn parse_evaluation(s: Seq<u8>) -> Parsed<Evaluation> {
    match Vec::<u8>::parse(s) {
        Ok((bytecode, s)) => match usize::parse(s) {
            Ok((n_eval_insn, s)) => match usize::parse(s) {
                Ok((scratch_peak_live, s)) => match bool::parse(s) {
                    Ok((scratch_pooled, s)) => Ok(
                        (
                            Evaluation {
                                bytecode,
                                n_eval_insn,
                                scratch_peak_live,
                                scratch_pooled,
                            },
                            s,
                        ),
                    ),
                    Err(e) => Err(e),
                },
                Err(e) => Err(e),
            },
            Err(e) => Err(e),
        },
        Err(e) => Err(e),
    }
}

/// What comes of reading the fields of a cache. Nothing may follow them.
pub open spec fn parse_fields(s: Seq<u8>) -> Parsed<Payload> {
    match parse_counts(s) {
        Ok((counts, s)) => match ConstraintSystem::parse(s) {
            Ok((constraint_system, s)) => match ValueVecLayout::parse(s) {
                Ok((value_vec_layout, s)) => match parse_items::<ValueIndex>(
                    s,
                    counts.n_mapped as nat,
                ) {
                    Ok((mapped, s)) => match parse_inout(s) {
                        Ok((inout, s)) => match parse_evaluation(s) {
                            Ok((evaluation, s)) => if s.len() != 0 {
                                Err(
                                    (
                                        SerializationError::InvalidConstruction {
                                            name: "compile_cache::trailing",
                                        },
                                        s,
                                    ),
                                )
                            } else {
                                Ok(
                                    (
                                        Payload {
                                            n_wires: counts.n_wires,
                                            n_gates: counts.n_gates,
                                            digest: counts.digest,
                                            constraint_system,
                                            value_vec_layout,
                                            mapped,
                                            inout,
                                            bytecode: evaluation.bytecode,
                                            n_eval_insn: evaluation.n_eval_insn,
                                            scratch_peak_live: evaluation.scratch_peak_live,
                                            scratch_pooled: evaluation.scratch_pooled,
                                        },
                                        s,
                                    ),
                                )
                            },
                            Err(e) => Err(e),
                        },
                        Err(e) => Err(e),
                    },
                    Err(e) => Err(e),
                },
                Err(e) => Err(e),
            },
            Err(e) => Err(e),
        },
        Err(e) => Err(e),
    }
}

/// What comes of reading the versions: the version of the crate that wrote the cache.
pub open spec fn parse_header(s: Seq<u8>) -> Parsed<Seq<char>> {
    match u32::parse(s) {
        Ok((magic, s)) => if magic != MAGIC {
            Err((SerializationError::InvalidConstruction { name: "compile_cache::MAGIC" }, s))
        } else {
            match u32::parse(s) {
                Ok((version, s)) => if version != CACHE_VERSION {
                    Err(
                        (
                            SerializationError::InvalidConstruction {
                                name: "compile_cache::CACHE_VERSION",
                            },
                            s,
                        ),
                    )
                } else {
                    String::parse(s)
                },
                Err(e) => Err(e),
            }
        },
        Err(e) => Err(e),
    }
}

/// Whether bytes begin like a cache.
pub open spec fn begins_with_magic(bytes: Seq<u8>) -> bool {
    bytes.len() >= 4 && le_value(bytes.take(4)) == MAGIC
}

/// Whether the last eight bytes are the checksum of those before them.
pub open spec fn sealed(bytes: Seq<u8>) -> bool {
    &&& bytes.len() >= 8
    &&& le_value(bytes.skip(bytes.len() - 8)) == checksum(bytes.take(bytes.len() - 8))
}

/// What comes of opening a cache: what it records, or why it is refused. A file that does not begin
/// like a cache is refused as such, before its checksum is looked at; and no field is looked at
/// before the checksum is.
pub open spec fn parse_cache(bytes: Seq<u8>) -> Result<Payload, Refusal> {
    if !begins_with_magic(bytes) {
        Err(
            Refusal::Deserialize(
                SerializationError::InvalidConstruction { name: "compile_cache::MAGIC" },
            ),
        )
    } else if !sealed(bytes) {
        Err(
            Refusal::Deserialize(
                SerializationError::InvalidConstruction { name: "compile_cache::checksum" },
            ),
        )
    } else {
        match parse_header(bytes.take(bytes.len() - 8)) {
            Ok((pkg_version, s)) => if pkg_version != PKG_VERSION@ {
                Err(Refusal::VersionMismatch { cached: pkg_version, current: PKG_VERSION@ })
            } else {
                match parse_fields(s) {
                    Ok((payload, _)) => Ok(payload),
                    Err((e, _)) => Err(Refusal::Deserialize(e)),
                }
            },
            Err((e, _)) => Err(Refusal::Deserialize(e)),
        }
    }
}

/// The mapping that gives the first wires the value indices of a list, and every other wire a
/// scratch word: a wire handle beyond the mapped range must not alias a real word.
pub open spec fn map_of(mapped: Seq<ValueIndex>) -> Map<usize, ValueIndex> {
    Map::new(
        |index: usize| true,
        |index: usize|
            if index < mapped.len() {
                mapped[index as int]
            } else {
                ValueIndex::Scratch(0)
            },
    )
}

/// The wires with these indices.
pub open spec fn wires_of(indices: Seq<u32>) -> Seq<Wire> {
    indices.map_values(|index: u32| Wire { index: index as usize })
}

/// The deserialized compilation outputs.
pub struct CompileCacheParts {
    /// Wire count of the constructed graph, before the passes: what the loading builder holds.
    pub n_wires: usize,
    /// Gate count of the constructed graph.
    pub n_gates: usize,
    /// Digest of the constructed state: graph, options and force-committed set.
    pub digest: u64,
    pub constraint_system: ConstraintSystem,
    pub value_vec_layout: ValueVecLayout,
    pub wire_mapping: WireMapping,
    pub inout: Vec<Wire>,
    pub bytecode: Vec<u8>,
    pub n_eval_insn: usize,
    pub scratch_peak_live: usize,
    pub scratch_pooled: bool,
}

impl CompileCacheParts {
    /// Whether these are the parts that a payload records.
    pub open spec fn records(&self, v: Payload) -> bool {
        &&& self.n_wires == v.n_wires
        &&& self.n_gates == v.n_gates
        &&& self.digest == v.digest
        &&& self.constraint_system.deep_view() == v.constraint_system
        &&& self.value_vec_layout == v.value_vec_layout
        &&& self.wire_mapping@ == map_of(v.mapped)
        &&& self.inout@ == wires_of(v.inout)
        &&& self.bytecode@ == v.bytecode
        &&& self.n_eval_insn == v.n_eval_insn
        &&& self.scratch_peak_live == v.scratch_peak_live
        &&& self.scratch_pooled == v.scratch_pooled
    }

    /// Whether these are the outputs that were to be written. A wire beyond the mapped range has a
    /// scratch word.
    pub open spec fn restores(&self, parts: CacheWrite<'_>) -> bool {
        &&& self.n_wires == parts.n_wires
        &&& self.n_gates == parts.n_gates
        &&& self.digest == parts.digest
        &&& self.constraint_system.deep_view() == parts.constraint_system.deep_view()
        &&& self.value_vec_layout == *parts.value_vec_layout
        &&& forall|index: usize| #[trigger]
            self.wire_mapping@[index] == if index < parts.n_mapped {
                parts.wire_mapping@[index]
            } else {
                ValueIndex::Scratch(0)
            }
        &&& self.inout@ == parts.inout@
        &&& self.bytecode@ == parts.bytecode@
        &&& self.n_eval_insn == parts.n_eval_insn
        &&& self.scratch_peak_live == parts.scratch_peak_live
        &&& self.scratch_pooled == parts.scratch_pooled
    }
}

/// Reads the value indices of the first wires.
fn read_mapping(buf: &mut &[u8], n_mapped: usize) -> (result: Result<
    WireMapping,
    SerializationError,
>)
    ensures
        match result {
            Ok(mapping) => parse_items::<ValueIndex>(old(buf)@, n_mapped as nat) matches Ok(
                (mapped, rest),
            ) && mapping@ == map_of(mapped) && rest == final(buf)@,
            Err(e) => parse_items::<ValueIndex>(old(buf)@, n_mapped as nat) == Err::<
                (Seq<ValueIndex>, Seq<u8>),
                (SerializationError, Seq<u8>),
            >((e, final(buf)@)),
        },
{
    let mut mapping = WireMapping::with_default(ValueIndex::scratch(0));
    let ghost mut read = Seq::<ValueIndex>::empty();
    let mut i: usize = 0;
    proof {
        assert(mapping@ =~= map_of(read));
        if let Ok((more, rest)) = parse_items::<ValueIndex>(buf@, n_mapped as nat) {
            assert(read + more =~= more);
        }
    }
    while i < n_mapped
        invariant
            i <= n_mapped,
            read.len() == i,
            mapping@ == map_of(read),
            parse_items::<ValueIndex>(old(buf)@, n_mapped as nat) == prepend(
                read,
                parse_items::<ValueIndex>(buf@, (n_mapped - i) as nat),
            ),
        decreases n_mapped - i,
    {
        let value_index = ValueIndex::deserialize(buf)?;
        mapping.set(Wire { index: i }, value_index);
        proof {
            let before = read;
            read = read + seq![value_index];
            assert(mapping@ =~= map_of(read));
            if let Ok((more, rest)) = parse_items::<ValueIndex>(buf@, (n_mapped - i - 1) as nat) {
                assert(before + (seq![value_index] + more) =~= read + more);
            }
        }
        i += 1;
    }
    assert(read + Seq::<ValueIndex>::empty() =~= read);
    Ok(mapping)
}

/// Reads the wires of the public interface.
fn read_inout(buf: &mut &[u8]) -> (result: Result<Vec<Wire>, SerializationError>)
    ensures
        match result {
            Ok(inout) => parse_inout(old(buf)@) matches Ok((indices, rest)) && inout@ == wires_of(
                indices,
            ) && rest == final(buf)@,
            Err(e) => parse_inout(old(buf)@) == Err::<
                (Seq<u32>, Seq<u8>),
                (SerializationError, Seq<u8>),
            >((e, final(buf)@)),
        },
{
    let n_inout: usize = usize::deserialize(buf)?;
    // A length field cannot promise more than the buffer holds; checked before anything is
    // reserved for it.
    if n_inout > remaining(buf) / 4 {
        return Err(SerializationError::InvalidConstruction { name: "compile_cache::n_inout" });
    }
    let indices = deserialize_items::<u32>(buf, n_inout)?;
    assert(indices.deep_view() =~= indices@);
    let mut inout: Vec<Wire> = Vec::with_capacity(n_inout);
    let mut i: usize = 0;
    while i < indices.len()
        invariant
            i <= indices@.len(),
            inout@.len() == i,
            forall|k: int| 0 <= k < i ==> (#[trigger] inout@[k]).index == indices@[k],
        decreases indices@.len() - i,
    {
        inout.push(Wire { index: indices[i] as usize });
        i += 1;
    }
    assert(inout@ =~= wires_of(indices@));
    Ok(inout)
}

/// Reads the fields of a cache.
fn read_fields(buf: &mut &[u8]) -> (result: Result<CompileCacheParts, SerializationError>)
    ensures
        match result {
            Ok(parts) => parse_fields(old(buf)@) matches Ok((payload, rest)) && parts.records(
                payload,
            ) && rest == final(buf)@,
            Err(e) => parse_fields(old(buf)@) == Err::<
                (Payload, Seq<u8>),
                (SerializationError, Seq<u8>),
            >((e, final(buf)@)),
        },
{
    let n_wires: usize = usize::deserialize(buf)?;
    let n_gates: usize = usize::deserialize(buf)?;
    let digest: u64 = u64::deserialize(buf)?;
    let n_mapped: usize = usize::deserialize(buf)?;
    let constraint_system = ConstraintSystem::deserialize(buf)?;
    let value_vec_layout = ValueVecLayout::deserialize(buf)?;
    let wire_mapping = read_mapping(buf, n_mapped)?;
    let inout = read_inout(buf)?;
    let bytecode = Vec::<u8>::deserialize(buf)?;
    let n_eval_insn: usize = usize::deserialize(buf)?;
    let scratch_peak_live: usize = usize::deserialize(buf)?;
    let scratch_pooled: bool = bool::deserialize(buf)?;
    if remaining(buf) != 0 {
        return Err(SerializationError::InvalidConstruction { name: "compile_cache::trailing" });
    }
    assert(bytecode.deep_view() =~= bytecode@);
    Ok(
        CompileCacheParts {
            n_wires,
            n_gates,
            digest,
            constraint_system,
            value_vec_layout,
            wire_mapping,
            inout,
            bytecode,
            n_eval_insn,
            scratch_peak_live,
            scratch_pooled,
        },
    )
}

/// Reads the versions.
fn read_header(buf: &mut &[u8]) -> (result: Result<String, SerializationError>)
    ensures
        match result {
            Ok(pkg_version) => parse_header(old(buf)@) == Ok::<
                (Seq<char>, Seq<u8>),
                (SerializationError, Seq<u8>),
            >((pkg_version@, final(buf)@)),
            Err(e) => parse_header(old(buf)@) == Err::<
                (Seq<char>, Seq<u8>),
                (SerializationError, Seq<u8>),
            >((e, final(buf)@)),
        },
{
    let magic: u32 = u32::deserialize(buf)?;
    if magic != MAGIC {
        return Err(SerializationError::InvalidConstruction { name: "compile_cache::MAGIC" });
    }
    let version: u32 = u32::deserialize(buf)?;
    if version != CACHE_VERSION {
        return Err(
            SerializationError::InvalidConstruction { name: "compile_cache::CACHE_VERSION" },
        );
    }
    String::deserialize(buf)
}

impl CompileCacheParts {
    /// Opens a cache.
    pub fn deserialize(bytes: &[u8]) -> (result: Result<Self, CompileCacheError>)
        ensures
            match result {
                Ok(parts) => parse_cache(bytes@) matches Ok(payload) && parts.records(payload),
                Err(e) => parse_cache(bytes@) == Err::<Payload, Refusal>(e.deep_view()),
            },
    {
        // Peek the magic before checksumming, so pointing the loader at some other file reads as
        // "not a compilation cache" rather than a checksum failure over the wrong bytes.
        let mut peek: &[u8] = bytes;
        if remaining(&peek) < 4 || get_u32_le(&mut peek) != MAGIC {
            return Err(
                CompileCacheError::Deserialize(
                    SerializationError::InvalidConstruction { name: "compile_cache::MAGIC" },
                ),
            );
        }
        // The last 8 bytes checksum everything before them; verify before parsing, so a bit flip
        // anywhere in the payload is refused at the door rather than loading a subtly wrong
        // circuit.
        if bytes.len() < 8 {
            return Err(
                CompileCacheError::Deserialize(
                    SerializationError::InvalidConstruction { name: "compile_cache::checksum" },
                ),
            );
        }
        let body_len: usize = bytes.len() - 8;
        let body: &[u8] = slice_subrange(bytes, 0, body_len);
        let mut trailer: &[u8] = slice_subrange(bytes, body_len, bytes.len());
        proof {
            assert(body@ =~= bytes@.take(bytes@.len() - 8));
            assert(trailer@ =~= bytes@.skip(bytes@.len() - 8));
            assert(trailer@.take(8) =~= trailer@);
        }
        let stored: u64 = get_u64_le(&mut trailer);
        if payload_checksum(body) != stored {
            return Err(
                CompileCacheError::Deserialize(
                    SerializationError::InvalidConstruction { name: "compile_cache::checksum" },
                ),
            );
        }
        let mut read_buf: &[u8] = body;
        let pkg_version = match read_header(&mut read_buf) {
            Ok(pkg_version) => pkg_version,
            Err(e) => {
                return Err(CompileCacheError::Deserialize(e));
            },
        };
        if pkg_version != PKG_VERSION.to_owned() {
            return Err(
                CompileCacheError::VersionMismatch { cached: pkg_version, current: PKG_VERSION },
            );
        }
        match read_fields(&mut read_buf) {
            Ok(parts) => Ok(parts),
            Err(e) => Err(CompileCacheError::Deserialize(e)),
        }
    }
}

} // verus!
