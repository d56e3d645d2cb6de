//! What a cache promises: what was written is read back, and what was corrupted is refused.

use vstd::prelude::*;
use vstd::utf8::{encode_utf8, is_ascii_chars_encode_utf8};

use crate::compile_cache::cache::{
    begins_with_magic, body_tokens, cache_bytes, count_tokens, evaluation_tokens, field_tokens,
    header_tokens, map_of, parse_cache, parse_counts, parse_evaluation, parse_fields, parse_header,
    parse_inout, sealed, wires_of, written, CacheWrite, CompileCacheParts, Counts, Evaluation,
    Payload, ValueVecLayout, CACHE_VERSION, MAGIC, PKG_VERSION,
};
use crate::compile_cache::checksum::{checksum, differ_in_word, law_checksum_detects};
use crate::compile_cache::error::Refusal;
use crate::constraint_system::{ConstraintSystem, ValueIndex};
use crate::serialization::format::{
    emit, emit_token, flat, group_format, law_emit_succeeds, lemma_flat_add, lemma_flat_one,
    lemma_sizes_fit_add, lemma_sizes_fit_one, lemma_split, sizes_fit, DeserializeBytes,
    SerializationError, SerializeBytes, Token, Written,
};
use crate::serialization::little_endian::{
    le_bytes, lemma_le_bytes_len, lemma_le_bytes_of_value, lemma_le_limits, lemma_le_value_of_bytes,
};
use crate::serialization::primitives::{items_tokens, lemma_items_round_trip, parse_items};

verus! {

/// The lengths in the versions fit.
proof fn lemma_header_fits()
    ensures
        sizes_fit(header_tokens(PKG_VERSION@)),
{
    broadcast use group_format;

    reveal_strlit("0.1.0");
    is_ascii_chars_encode_utf8(PKG_VERSION@);
    assert(encode_utf8(PKG_VERSION@).len() == 5);
}

proof fn lemma_header_round_trip(pkg_version: Seq<char>, rest: Seq<u8>)
    requires
        sizes_fit(header_tokens(pkg_version)),
    ensures
        parse_header(flat(header_tokens(pkg_version)) + rest) == Ok::<
            (Seq<char>, Seq<u8>),
            (SerializationError, Seq<u8>),
        >((pkg_version, rest)),
{
    let t2 = str::tokens(pkg_version);
    let t1 = u32::tokens(CACHE_VERSION) + t2;
    lemma_split(u32::tokens(MAGIC), t1, rest);
    lemma_split(u32::tokens(CACHE_VERSION), t2, rest);
    u32::law_round_trip(MAGIC, flat(t1) + rest);
    u32::law_round_trip(CACHE_VERSION, flat(t2) + rest);
    String::law_round_trip(pkg_version, rest);
}

/// What begins with a header begins like a cache.
proof fn lemma_begins(pkg_version: Seq<char>, rest: Seq<u8>)
    ensures
        begins_with_magic(flat(header_tokens(pkg_version)) + rest),
{
    let bytes = flat(header_tokens(pkg_version)) + rest;
    let tail = u32::tokens(CACHE_VERSION) + str::tokens(pkg_version);
    lemma_flat_add(u32::tokens(MAGIC), tail);
    lemma_flat_one(Token::Raw(le_bytes(MAGIC as nat, 4)));
    lemma_le_limits();
    lemma_le_bytes_len(MAGIC as nat, 4);
    lemma_le_value_of_bytes(MAGIC as nat, 4);
    assert(bytes.take(4) =~= le_bytes(MAGIC as nat, 4));
}

/// Bytes with their checksum behind them are sealed.
proof fn lemma_sealed(body: Seq<u8>)
    ensures
        ({
            let bytes = body + le_bytes(checksum(body) as nat, 8);
            sealed(bytes) && bytes.take(bytes.len() - 8) == body
        }),
{
    let bytes = body + le_bytes(checksum(body) as nat, 8);
    let sum = checksum(body) as nat;
    lemma_le_limits();
    lemma_le_bytes_len(sum, 8);
    lemma_le_value_of_bytes(sum, 8);
    assert(bytes.take(bytes.len() - 8) =~= body);
    assert(bytes.skip(bytes.len() - 8) =~= le_bytes(sum, 8));
}

proof fn lemma_counts_round_trip(v: Payload, rest: Seq<u8>)
    requires
        sizes_fit(count_tokens(v)),
    ensures
        v.mapped.len() <= u32::MAX,
        parse_counts(flat(count_tokens(v)) + rest) == Ok::<
            (Counts, Seq<u8>),
            (SerializationError, Seq<u8>),
        >(
            (
                Counts {
                    n_wires: v.n_wires,
                    n_gates: v.n_gates,
                    digest: v.digest,
                    n_mapped: v.mapped.len() as usize,
                },
                rest,
            ),
        ),
{
    let t3 = seq![Token::Size(v.mapped.len())];
    let t2 = u64::tokens(v.digest) + t3;
    let t1 = usize::tokens(v.n_gates) + t2;
    lemma_split(usize::tokens(v.n_wires), t1, rest);
    lemma_split(usize::tokens(v.n_gates), t2, rest);
    lemma_split(u64::tokens(v.digest), t3, rest);
    lemma_sizes_fit_one(Token::Size(v.mapped.len()));
    assert(usize::tokens(v.mapped.len() as usize) == t3);
    usize::law_round_trip(v.n_wires, flat(t1) + rest);
    usize::law_round_trip(v.n_gates, flat(t2) + rest);
    u64::law_round_trip(v.digest, flat(t3) + rest);
    usize::law_round_trip(v.mapped.len() as usize, rest);
}

/// A list of four-byte numbers takes four bytes for each.
proof fn lemma_indices_len(items: Seq<u32>)
    ensures
        flat(items_tokens::<u32>(items)).len() == 4 * items.len(),
    decreases items.len(),
{
    if items.len() > 0 {
        lemma_indices_len(items.skip(1));
        lemma_flat_add(u32::tokens(items[0]), items_tokens::<u32>(items.skip(1)));
        lemma_flat_one(Token::Raw(le_bytes(items[0] as nat, 4)));
        lemma_le_bytes_len(items[0] as nat, 4);
    }
}

proof fn lemma_inout_round_trip(inout: Seq<u32>, rest: Seq<u8>)
    requires
        sizes_fit(Vec::<u32>::tokens(inout)),
    ensures
        parse_inout(flat(Vec::<u32>::tokens(inout)) + rest) == Ok::<
            (Seq<u32>, Seq<u8>),
            (SerializationError, Seq<u8>),
        >((inout, rest)),
{
    let items = items_tokens::<u32>(inout);
    lemma_split(seq![Token::Size(inout.len())], items, rest);
    lemma_sizes_fit_one(Token::Size(inout.len()));
    assert(usize::tokens(inout.len() as usize) == seq![Token::Size(inout.len())]);
    usize::law_round_trip(inout.len() as usize, flat(items) + rest);
    lemma_indices_len(inout);
    lemma_items_round_trip::<u32>(inout, rest);
}

proof fn lemma_evaluation_round_trip(v: Payload, rest: Seq<u8>)
    requires
        sizes_fit(evaluation_tokens(v)),
    ensures
        parse_evaluation(flat(evaluation_tokens(v)) + rest) == Ok::<
            (Evaluation, Seq<u8>),
            (SerializationError, Seq<u8>),
        >(
            (
                Evaluation {
                    bytecode: v.bytecode,
                    n_eval_insn: v.n_eval_insn,
                    scratch_peak_live: v.scratch_peak_live,
                    scratch_pooled: v.scratch_pooled,
                },
                rest,
            ),
        ),
{
    let t3 = bool::tokens(v.scratch_pooled);
    let t2 = usize::tokens(v.scratch_peak_live) + t3;
    let t1 = usize::tokens(v.n_eval_insn) + t2;
    lemma_split(Vec::<u8>::tokens(v.bytecode), t1, rest);
    lemma_split(usize::tokens(v.n_eval_insn), t2, rest);
    lemma_split(usize::tokens(v.scratch_peak_live), t3, rest);
    Vec::<u8>::law_round_trip(v.bytecode, flat(t1) + rest);
    usize::law_round_trip(v.n_eval_insn, flat(t2) + rest);
    usize::law_round_trip(v.scratch_peak_live, flat(t3) + rest);
    bool::law_round_trip(v.scratch_pooled, rest);
}

/// The fields are read back, unless something follows them.
pub proof fn law_nothing_may_follow(v: Payload, rest: Seq<u8>)
    requires
        ConstraintSystem::accepted(v.constraint_system),
        sizes_fit(field_tokens(v)),
    ensures
        parse_fields(flat(field_tokens(v)) + rest) == if rest.len() == 0 {
            Ok::<(Payload, Seq<u8>), (SerializationError, Seq<u8>)>((v, rest))
        } else {
            Err(
                (SerializationError::InvalidConstruction { name: "compile_cache::trailing" }, rest),
            )
        },
{
    let t5 = evaluation_tokens(v);
    let t4 = Vec::<u32>::tokens(v.inout) + t5;
    let t3 = items_tokens::<ValueIndex>(v.mapped) + t4;
    let t2 = ValueVecLayout::tokens(v.value_vec_layout) + t3;
    let t1 = ConstraintSystem::tokens(v.constraint_system) + t2;
    lemma_split(count_tokens(v), t1, rest);
    lemma_split(ConstraintSystem::tokens(v.constraint_system), t2, rest);
    lemma_split(ValueVecLayout::tokens(v.value_vec_layout), t3, rest);
    lemma_split(items_tokens::<ValueIndex>(v.mapped), t4, rest);
    lemma_split(Vec::<u32>::tokens(v.inout), t5, rest);
    lemma_counts_round_trip(v, flat(t1) + rest);
    ConstraintSystem::law_round_trip(v.constraint_system, flat(t2) + rest);
    ValueVecLayout::law_round_trip(v.value_vec_layout, flat(t3) + rest);
    lemma_items_round_trip::<ValueIndex>(v.mapped, flat(t4) + rest);
    lemma_inout_round_trip(v.inout, flat(t5) + rest);
    lemma_evaluation_round_trip(v, rest);
}

proof fn lemma_fields_round_trip(v: Payload)
    requires
        ConstraintSystem::accepted(v.constraint_system),
        sizes_fit(field_tokens(v)),
    ensures
        parse_fields(flat(field_tokens(v))) == Ok::<
            (Payload, Seq<u8>),
            (SerializationError, Seq<u8>),
        >((v, Seq::empty())),
{
    let fields = flat(field_tokens(v));
    law_nothing_may_follow(v, Seq::empty());
    assert(fields + Seq::<u8>::empty() =~= fields);
}

/// A cache is opened to what it was written to record, for every payload whose lengths fit.
pub proof fn law_cache_round_trip(v: Payload)
    requires
        ConstraintSystem::accepted(v.constraint_system),
        sizes_fit(field_tokens(v)),
    ensures
        parse_cache(cache_bytes(v)) == Ok::<Payload, Refusal>(v),
{
    let body = flat(body_tokens(v));
    let fields = flat(field_tokens(v));
    let sum = le_bytes(checksum(body) as nat, 8);
    lemma_flat_add(header_tokens(PKG_VERSION@), field_tokens(v));
    lemma_header_fits();
    lemma_sealed(body);
    lemma_begins(PKG_VERSION@, fields + sum);
    assert(cache_bytes(v) =~= flat(header_tokens(PKG_VERSION@)) + (fields + sum));
    lemma_header_round_trip(PKG_VERSION@, fields);
    lemma_fields_round_trip(v);
}

/// A cache that another version of this crate wrote is refused, whatever follows its header.
pub proof fn law_other_version_is_refused(pkg_version: Seq<char>, fields: Seq<u8>)
    requires
        pkg_version != PKG_VERSION@,
        encode_utf8(pkg_version).len() <= u32::MAX,
    ensures
        ({
            let body = flat(header_tokens(pkg_version)) + fields;
            parse_cache(body + le_bytes(checksum(body) as nat, 8)) == Err::<Payload, Refusal>(
                Refusal::VersionMismatch { cached: pkg_version, current: PKG_VERSION@ },
            )
        }),
{
    let body = flat(header_tokens(pkg_version)) + fields;
    assert(sizes_fit(header_tokens(pkg_version))) by {
        broadcast use group_format;

    }
    lemma_sealed(body);
    lemma_begins(pkg_version, fields + le_bytes(checksum(body) as nat, 8));
    assert(body + le_bytes(checksum(body) as nat, 8) =~= flat(header_tokens(pkg_version)) + (fields
        + le_bytes(checksum(body) as nat, 8)));
    lemma_header_round_trip(pkg_version, fields);
}

/// Writing a cache succeeds if and only if its lengths fit and so do its bytes. Then those are what
/// is appended.
pub proof fn law_write_succeeds(bytes: Seq<u8>, v: Payload)
    ensures
        written(bytes, v).error is None <==> sizes_fit(field_tokens(v)) && bytes.len()
            + cache_bytes(v).len() <= isize::MAX,
        written(bytes, v).error is None ==> written(bytes, v).bytes == bytes + cache_bytes(v),
{
    let body = flat(body_tokens(v));
    lemma_header_fits();
    lemma_sizes_fit_add(header_tokens(PKG_VERSION@), field_tokens(v));
    if bytes.len() > isize::MAX {
        assert(body_tokens(v)[0] == Token::Raw(le_bytes(MAGIC as nat, 4)));
        assert(emit_token(bytes, body_tokens(v)[0]).error is Some);
    } else {
        law_emit_succeeds(bytes, body_tokens(v));
        let now = emit(bytes, body_tokens(v));
        lemma_le_bytes_len(checksum(body) as nat, 8);
        if now.error is None {
            assert(now.bytes.skip(bytes.len() as int) =~= body);
            let sum = u64::tokens(checksum(body));
            law_emit_succeeds(now.bytes, sum);
            lemma_flat_one(Token::Raw(le_bytes(checksum(body) as nat, 8)));
            lemma_sizes_fit_one(Token::Raw(le_bytes(checksum(body) as nat, 8)));
            assert(now.bytes + le_bytes(checksum(body) as nat, 8) =~= bytes + cache_bytes(v));
        }
    }
}

/// What was written is read back: every compilation output, where the wires of the public interface
/// have indices of four bytes and the shifts of the constraint system are in range.
pub proof fn law_written_is_read(
    parts: CacheWrite<'_>,
    bytes: Seq<u8>,
    out: Seq<u8>,
    read: CompileCacheParts,
)
    requires
        written(bytes, parts.payload()) == (Written { bytes: out, error: None }),
        ConstraintSystem::accepted(parts.constraint_system.deep_view()),
        forall|i: int|
            0 <= i < parts.inout@.len() ==> (#[trigger] parts.inout@[i]).index <= u32::MAX,
    ensures
        parse_cache(out.skip(bytes.len() as int)) == Ok::<Payload, Refusal>(parts.payload()),
        read.records(parts.payload()) ==> read.restores(parts),
{
    let v = parts.payload();
    law_write_succeeds(bytes, v);
    law_cache_round_trip(v);
    lemma_restores(parts, read);
    assert(out.skip(bytes.len() as int) =~= cache_bytes(v));
}

/// What records the outputs restores them.
proof fn lemma_restores(parts: CacheWrite<'_>, read: CompileCacheParts)
    requires
        forall|i: int|
            0 <= i < parts.inout@.len() ==> (#[trigger] parts.inout@[i]).index <= u32::MAX,
    ensures
        read.records(parts.payload()) ==> read.restores(parts),
{
    let v = parts.payload();
    assert(wires_of(v.inout) =~= parts.inout@) by {
        assert forall|i: int| 0 <= i < parts.inout@.len() implies wires_of(v.inout)[i]
            == parts.inout@[i] by {
            assert(v.inout[i] == parts.inout@[i].index as u32);
        }
    }
    let mapping = map_of(v.mapped);
    assert forall|index: usize| #[trigger] mapping[index] == if index < parts.n_mapped {
        parts.wire_mapping@[index]
    } else {
        ValueIndex::Scratch(0)
    } by {
        if index < parts.n_mapped {
            assert(v.mapped[index as int] == parts.wire_mapping@[index as int as usize]);
        }
    }
}

/// A valid constraint system is one that is read back.
pub proof fn law_valid_is_accepted(cs: ConstraintSystem)
    requires
        cs.deep_view().valid(),
    ensures
        ConstraintSystem::accepted(cs.deep_view()),
{
}

/// Why a cache that was corrupted is refused: as no cache at all, or by its checksum.
pub open spec fn corruption_refusal(bytes: Seq<u8>) -> Refusal {
    if begins_with_magic(bytes) {
        Refusal::Deserialize(
            SerializationError::InvalidConstruction { name: "compile_cache::checksum" },
        )
    } else {
        Refusal::Deserialize(
            SerializationError::InvalidConstruction { name: "compile_cache::MAGIC" },
        )
    }
}

/// A cache that was changed inside one aligned word, and so one with any one byte changed, is
/// refused: as no cache at all, or by its checksum. The checksum's own bytes are one such word.
pub proof fn law_corruption_is_refused(cache: Seq<u8>, bytes: Seq<u8>, at: int)
    requires
        sealed(cache),
        cache.len() == bytes.len(),
        ({
            let n = cache.len() - 8;
            ||| differ_in_word(cache.take(n), bytes.take(n), at) && cache.skip(n) == bytes.skip(n)
            ||| cache.take(n) == bytes.take(n) && cache.skip(n) != bytes.skip(n)
        }),
    ensures
        parse_cache(bytes) == Err::<Payload, Refusal>(corruption_refusal(bytes)),
{
    let n = cache.len() - 8;
    if cache.take(n) == bytes.take(n) {
        if sealed(bytes) {
            lemma_le_bytes_of_value(cache.skip(n));
            lemma_le_bytes_of_value(bytes.skip(n));
        }
    } else {
        law_checksum_detects(cache.take(n), bytes.take(n), at);
    }
}

/// A cache with one byte changed, wherever it stands, is refused: as no cache at all where that is
/// one of the first four, and else by its checksum.
pub proof fn law_byte_change_is_refused(cache: Seq<u8>, bytes: Seq<u8>, i: int)
    requires
        sealed(cache),
        begins_with_magic(cache),
        cache.len() == bytes.len(),
        0 <= i < cache.len(),
        cache[i] != bytes[i],
        forall|k: int| 0 <= k < cache.len() && k != i ==> #[trigger] cache[k] == bytes[k],
    ensures
        parse_cache(bytes) == Err::<Payload, Refusal>(
            Refusal::Deserialize(
                SerializationError::InvalidConstruction {
                    name: if i < 4 {
                        "compile_cache::MAGIC"
                    } else {
                        "compile_cache::checksum"
                    },
                },
            ),
        ),
{
    let n = cache.len() - 8;
    if i < n {
        assert(cache.take(n)[i] != bytes.take(n)[i]);
        assert(cache.skip(n) =~= bytes.skip(n));
    } else {
        assert(cache.take(n) =~= bytes.take(n));
        assert(cache.skip(n)[i - n] != bytes.skip(n)[i - n]);
    }
    law_corruption_is_refused(cache, bytes, i / 8);
    if i < 4 {
        assert(cache.take(4)[i] != bytes.take(4)[i]);
        lemma_le_bytes_of_value(cache.take(4));
        lemma_le_bytes_of_value(bytes.take(4));
    } else {
        assert(cache.take(4) =~= bytes.take(4));
    }
}

/// What was written is sealed and begins like a cache.
pub proof fn law_cache_is_sealed(v: Payload)
    ensures
        sealed(cache_bytes(v)),
        begins_with_magic(cache_bytes(v)),
{
    let body = flat(body_tokens(v));
    let fields = flat(field_tokens(v));
    let sum = le_bytes(checksum(body) as nat, 8);
    lemma_sealed(body);
    lemma_flat_add(header_tokens(PKG_VERSION@), field_tokens(v));
    lemma_begins(PKG_VERSION@, fields + sum);
    assert(cache_bytes(v) =~= flat(header_tokens(PKG_VERSION@)) + (fields + sum));
}

/// The fields of a cache are refused for the first part of them that is not read, and as that part
/// is: the counts, the constraint system, the layout, the wires' value indices, the wires of the
/// public interface, or what evaluation needs.
pub proof fn law_fields_refused(
    v: Payload,
    rest: Seq<u8>,
)
    requires
        ConstraintSystem::accepted(v.constraint_system),
        sizes_fit(field_tokens(v)),
    ensures
        parse_counts(rest) matches Err(e) ==> parse_fields(rest) == Err::<
            (Payload, Seq<u8>),
            (SerializationError, Seq<u8>),
        >(e),
        ConstraintSystem::parse(rest) matches Err(e) ==> parse_fields(flat(count_tokens(v)) + rest)
            == Err::<
            (Payload, Seq<u8>),
            (SerializationError, Seq<u8>),
        >(e),
        ValueVecLayout::parse(rest) matches Err(e) ==> parse_fields(flat(count_tokens(v))
            + (flat(ConstraintSystem::tokens(v.constraint_system)) + rest)) == Err::<
            (Payload, Seq<u8>),
            (SerializationError, Seq<u8>),
        >(e),
        parse_items::<ValueIndex>(rest, v.mapped.len()) matches Err(e) ==>
            parse_fields(flat(count_tokens(v))
            + (flat(ConstraintSystem::tokens(v.constraint_system))
            + (flat(ValueVecLayout::tokens(v.value_vec_layout)) + rest))) == Err::<
            (Payload, Seq<u8>),
            (SerializationError, Seq<u8>),
        >(e),
        parse_inout(rest) matches Err(e) ==> parse_fields(flat(count_tokens(v))
            + (flat(ConstraintSystem::tokens(v.constraint_system))
            + (flat(ValueVecLayout::tokens(v.value_vec_layout))
            + (flat(items_tokens::<ValueIndex>(v.mapped)) + rest)))) == Err::<
            (Payload, Seq<u8>),
            (SerializationError, Seq<u8>),
        >(e),
        parse_evaluation(rest) matches Err(e) ==> parse_fields(flat(count_tokens(v))
            + (flat(ConstraintSystem::tokens(v.constraint_system))
            + (flat(ValueVecLayout::tokens(v.value_vec_layout))
            + (flat(items_tokens::<ValueIndex>(v.mapped)) + (flat(Vec::<u32>::tokens(v.inout))
            + rest))))) == Err::<
            (Payload, Seq<u8>),
            (SerializationError, Seq<u8>),
        >(e),
{
    let t4 = Vec::<u32>::tokens(v.inout) + evaluation_tokens(v);
    let t3 = items_tokens::<ValueIndex>(v.mapped) + t4;
    let t2 = ValueVecLayout::tokens(v.value_vec_layout) + t3;
    let t1 = ConstraintSystem::tokens(v.constraint_system) + t2;
    lemma_sizes_fit_add(count_tokens(v), t1);
    lemma_sizes_fit_add(ConstraintSystem::tokens(v.constraint_system), t2);
    lemma_sizes_fit_add(ValueVecLayout::tokens(v.value_vec_layout), t3);
    lemma_sizes_fit_add(items_tokens::<ValueIndex>(v.mapped), t4);
    lemma_sizes_fit_add(Vec::<u32>::tokens(v.inout), evaluation_tokens(v));
    lemma_counts_round_trip(v, rest);
    lemma_counts_round_trip(v, flat(ConstraintSystem::tokens(v.constraint_system)) + rest);
    ConstraintSystem::law_round_trip(v.constraint_system, rest);
    lemma_counts_round_trip(v, flat(ConstraintSystem::tokens(v.constraint_system))
        + (flat(ValueVecLayout::tokens(v.value_vec_layout)) + rest));
    ConstraintSystem::law_round_trip(v.constraint_system,
        flat(ValueVecLayout::tokens(v.value_vec_layout)) + rest);
    ValueVecLayout::law_round_trip(v.value_vec_layout, rest);
    lemma_counts_round_trip(v, flat(ConstraintSystem::tokens(v.constraint_system))
        + (flat(ValueVecLayout::tokens(v.value_vec_layout))
        + (flat(items_tokens::<ValueIndex>(v.mapped)) + rest)));
    ConstraintSystem::law_round_trip(v.constraint_system,
        flat(ValueVecLayout::tokens(v.value_vec_layout))
        + (flat(items_tokens::<ValueIndex>(v.mapped)) + rest));
    ValueVecLayout::law_round_trip(v.value_vec_layout, flat(items_tokens::<ValueIndex>(v.mapped))
        + rest);
    lemma_items_round_trip::<ValueIndex>(v.mapped, rest);
    lemma_counts_round_trip(v, flat(ConstraintSystem::tokens(v.constraint_system))
        + (flat(ValueVecLayout::tokens(v.value_vec_layout))
        + (flat(items_tokens::<ValueIndex>(v.mapped)) + (flat(Vec::<u32>::tokens(v.inout))
        + rest))));
    ConstraintSystem::law_round_trip(v.constraint_system,
        flat(ValueVecLayout::tokens(v.value_vec_layout))
        + (flat(items_tokens::<ValueIndex>(v.mapped)) + (flat(Vec::<u32>::tokens(v.inout))
        + rest)));
    ValueVecLayout::law_round_trip(v.value_vec_layout, flat(items_tokens::<ValueIndex>(v.mapped))
        + (flat(Vec::<u32>::tokens(v.inout)) + rest));
    lemma_items_round_trip::<ValueIndex>(v.mapped, flat(Vec::<u32>::tokens(v.inout)) + rest);
    lemma_inout_round_trip(v.inout, rest);
}

/// The counts are refused for the first of them that is not read, and as that one is.
pub proof fn law_counts_refused(
    n_wires: usize,
    n_gates: usize,
    digest: u64,
    rest: Seq<u8>,
)
    requires
        sizes_fit(usize::tokens(n_wires)),
        sizes_fit(usize::tokens(n_gates)),
        sizes_fit(u64::tokens(digest)),
    ensures
        usize::parse(rest) matches Err(e) ==> parse_counts(rest) == Err::<
            (Counts, Seq<u8>),
            (SerializationError, Seq<u8>),
        >(e),
        usize::parse(rest) matches Err(e) ==> parse_counts(flat(usize::tokens(n_wires)) + rest)
            == Err::<
            (Counts, Seq<u8>),
            (SerializationError, Seq<u8>),
        >(e),
        u64::parse(rest) matches Err(e) ==> parse_counts(flat(usize::tokens(n_wires))
            + (flat(usize::tokens(n_gates)) + rest)) == Err::<
            (Counts, Seq<u8>),
            (SerializationError, Seq<u8>),
        >(e),
        usize::parse(rest) matches Err(e) ==> parse_counts(flat(usize::tokens(n_wires))
            + (flat(usize::tokens(n_gates)) + (flat(u64::tokens(digest)) + rest))) == Err::<
            (Counts, Seq<u8>),
            (SerializationError, Seq<u8>),
        >(e),
{
    usize::law_round_trip(n_wires, rest);
    usize::law_round_trip(n_wires, flat(usize::tokens(n_gates)) + rest);
    usize::law_round_trip(n_gates, rest);
    usize::law_round_trip(n_wires, flat(usize::tokens(n_gates)) + (flat(u64::tokens(digest))
        + rest));
    usize::law_round_trip(n_gates, flat(u64::tokens(digest)) + rest);
    u64::law_round_trip(digest, rest);
}

/// What evaluation needs is refused for the first part of it that is not read, and as that part is.
pub proof fn law_evaluation_refused(
    bytecode: Seq<u8>,
    n_eval_insn: usize,
    scratch_peak_live: usize,
    rest: Seq<u8>,
)
    requires
        Vec::<u8>::accepted(bytecode),
        sizes_fit(Vec::<u8>::tokens(bytecode)),
        sizes_fit(usize::tokens(n_eval_insn)),
        sizes_fit(usize::tokens(scratch_peak_live)),
    ensures
        Vec::<u8>::parse(rest) matches Err(e) ==> parse_evaluation(rest) == Err::<
            (Evaluation, Seq<u8>),
            (SerializationError, Seq<u8>),
        >(e),
        usize::parse(rest) matches Err(e) ==> parse_evaluation(flat(Vec::<u8>::tokens(bytecode))
            + rest) == Err::<
            (Evaluation, Seq<u8>),
            (SerializationError, Seq<u8>),
        >(e),
        usize::parse(rest) matches Err(e) ==> parse_evaluation(flat(Vec::<u8>::tokens(bytecode))
            + (flat(usize::tokens(n_eval_insn)) + rest)) == Err::<
            (Evaluation, Seq<u8>),
            (SerializationError, Seq<u8>),
        >(e),
        bool::parse(rest) matches Err(e) ==> parse_evaluation(flat(Vec::<u8>::tokens(bytecode))
            + (flat(usize::tokens(n_eval_insn)) + (flat(usize::tokens(scratch_peak_live)) + rest)))
            == Err::<
            (Evaluation, Seq<u8>),
            (SerializationError, Seq<u8>),
        >(e),
{
    Vec::<u8>::law_round_trip(bytecode, rest);
    Vec::<u8>::law_round_trip(bytecode, flat(usize::tokens(n_eval_insn)) + rest);
    usize::law_round_trip(n_eval_insn, rest);
    Vec::<u8>::law_round_trip(bytecode, flat(usize::tokens(n_eval_insn))
        + (flat(usize::tokens(scratch_peak_live)) + rest));
    usize::law_round_trip(n_eval_insn, flat(usize::tokens(scratch_peak_live)) + rest);
    usize::law_round_trip(scratch_peak_live, rest);
}

} // verus!
