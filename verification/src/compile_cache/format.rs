//! The bytes of a compilation cache, part by part; what is read from which bytes; and what comes of
//! loading.

use vstd::prelude::*;
use vstd::utf8::{encode_utf8, is_ascii_chars_encode_utf8};

use crate::compile_cache::cache::{
    begins_with_magic, body_tokens, cache_bytes, count_tokens, evaluation_tokens, field_tokens,
        header_tokens,
    map_of, parse_cache, parse_counts, parse_evaluation, parse_fields, parse_header, parse_inout,
    sealed, wires_of, written, CacheWrite, CompileCacheParts, Payload, ValueVecLayout,
        CACHE_VERSION, MAGIC, PKG_VERSION,
};
use crate::compile_cache::checksum::{checksum, lemma_le_value_padded, mix_bytes};
use crate::compile_cache::digest::{state_digest, Options};
use crate::compile_cache::error::{CompileCacheError, Refusal};
use crate::compile_cache::load::load_outcome;
use crate::compile_cache::wire_mapping::constant_map;
use crate::compile_cache::wire_set::{ascending_wires, lemma_lists_wires_unique, lists_wires};
use crate::constraint_system::format::law_value_index_bytes;
use crate::constraint_system::validate::{first_error, law_no_error_iff_valid};
use crate::constraint_system::{ConstraintSystem, ValueIndex};
use crate::ir::{GateGraph, Wire};
use crate::serialization::format::{
    emit, flat, group_format, lemma_emit_one, lemma_flat_add, lemma_flat_one, lemma_joined,
        lemma_sizes_fit_add,
    lemma_sizes_fit_one, sizes_fit, DeserializeBytes, SerializationError, SerializeBytes, Token,
    Written,
};
use crate::serialization::laws::{
    law_number_bytes, law_numbers_read, law_text_bytes, lemma_value_of_eight, lemma_value_of_four,
};
use crate::serialization::little_endian::{
    le_bytes, le_value, lemma_le_bytes_len, lemma_le_bytes_of_value, lemma_le_limits,
    lemma_le_value_of_bytes,
};
use crate::serialization::primitives::{
    items_tokens, lemma_items_canonical, lemma_items_fit, parse_items,
};

verus! {

/// A run of mixing steps from one of the words on ends in the checksum of what is left.
proof fn lemma_checksum_run(
    bytes: Seq<u8>,
    padded: Seq<u8>,
    words: Seq<u64>,
    states: Seq<u64>,
    i: int,
)
    requires
        words.len() == bytes.len() / 8 + 1,
        padded.len() == 8 * words.len(),
        forall|k: int|
            0 <= k < padded.len() ==> #[trigger] padded[k] == if k < bytes.len() {
                bytes[k]
            } else {
                0u8
            },
        forall|w: int|
            0 <= w < words.len() ==> #[trigger] words[w] == padded[8 * w] + 0x100 * padded[8 * w
                + 1] + 0x1_0000 * padded[8 * w + 2] + 0x100_0000 * padded[8 * w + 3]
                + 0x1_0000_0000 * padded[8 * w + 4] + 0x100_0000_0000 * padded[8 * w + 5]
                + 0x1_0000_0000_0000 * padded[8 * w + 6] + 0x100_0000_0000_0000 * padded[8 * w + 7],
        states.len() == words.len() + 1,
        forall|w: int|
            0 <= w < words.len() ==> states[w + 1] == (states[w]
                ^ #[trigger] words[w]).wrapping_mul(0x100000001b3),
        0 <= i < words.len(),
    ensures
        mix_bytes(states[i], bytes.skip(8 * i)) == states.last(),
    decreases words.len() - i,
{
    let left = bytes.skip(8 * i);
    let eight = padded.subrange(8 * i, 8 * i + 8);
    lemma_value_of_eight(eight);
    assert(words[i] == le_value(eight));
    if i + 1 < words.len() {
        lemma_checksum_run(bytes, padded, words, states, i + 1);
        assert(left.take(8) =~= eight);
        assert(left.skip(8) =~= bytes.skip(8 * (i + 1)));
    } else {
        let zeros = (8 - left.len()) as nat;
        lemma_le_value_padded(left, zeros);
        assert(eight =~= left + Seq::new(zeros, |k: int| 0u8));
    }
}

/// The checksum is the last of a run of states. The first is fixed but for the number of bytes, and
/// each further one mixes in the next word: eight bytes, the lowest first, with zeros behind the
/// last byte; there is a last word also where no bytes are left for it.
pub proof fn law_checksum_run(
    bytes: Seq<u8>,
    padded: Seq<u8>,
    words: Seq<u64>,
    states: Seq<u64>,
)
    requires
        words.len() == bytes.len() / 8 + 1,
        padded.len() == 8 * words.len(),
        forall|k: int|
            0 <= k < padded.len() ==> #[trigger] padded[k] == if k < bytes.len() {
                bytes[k]
            } else {
                0u8
            },
        forall|w: int|
            0 <= w < words.len() ==> #[trigger] words[w] == padded[8 * w] + 0x100 * padded[8 * w
                + 1] + 0x1_0000 * padded[8 * w + 2] + 0x100_0000 * padded[8 * w + 3]
                + 0x1_0000_0000 * padded[8 * w + 4] + 0x100_0000_0000 * padded[8 * w + 5]
                + 0x1_0000_0000_0000 * padded[8 * w + 6] + 0x100_0000_0000_0000 * padded[8 * w + 7],
        states.len() == words.len() + 1,
        states[0] == 0xcbf29ce484222325 ^ (bytes.len() as u64),
        forall|w: int|
            0 <= w < words.len() ==> states[w + 1] == (states[w]
                ^ #[trigger] words[w]).wrapping_mul(0x100000001b3),
    ensures
        checksum(bytes) == states.last(),
{
    lemma_checksum_run(bytes, padded, words, states, 0);
    assert(bytes.skip(0) =~= bytes);
}

/// A layout of a value vector is its five sizes.
pub proof fn law_layout_bytes(layout: ValueVecLayout)
    ensures
        flat(ValueVecLayout::tokens(layout)) == flat(usize::tokens(layout.n_const)) + (flat(
            usize::tokens(layout.n_inout),
        ) + (flat(usize::tokens(layout.n_witness)) + (flat(usize::tokens(layout.n_internal)) + flat(
            usize::tokens(layout.n_scratch),
        )))),
        sizes_fit(ValueVecLayout::tokens(layout)) <==> layout.n_const <= u32::MAX && layout.n_inout
            <= u32::MAX && layout.n_witness <= u32::MAX && layout.n_internal <= u32::MAX
            && layout.n_scratch <= u32::MAX,
{
    broadcast use group_format;

    law_number_bytes(0, 0, 0, false, layout.n_const);
    law_number_bytes(0, 0, 0, false, layout.n_inout);
    law_number_bytes(0, 0, 0, false, layout.n_witness);
    law_number_bytes(0, 0, 0, false, layout.n_internal);
    law_number_bytes(0, 0, 0, false, layout.n_scratch);
}

/// Where the fields of a payload stand.
pub proof fn law_field_bytes(v: Payload)
    requires
        v.mapped.len() <= usize::MAX,
    ensures
        flat(field_tokens(v)) == (flat(usize::tokens(v.n_wires)) + (flat(usize::tokens(v.n_gates))
            + (flat(u64::tokens(v.digest)) + flat(usize::tokens(v.mapped.len() as usize))))) + (
        flat(ConstraintSystem::tokens(v.constraint_system)) + (flat(
            ValueVecLayout::tokens(v.value_vec_layout),
        ) + (flat(items_tokens::<ValueIndex>(v.mapped)) + (flat(Vec::<u32>::tokens(v.inout)) + (
        flat(Vec::<u8>::tokens(v.bytecode)) + (flat(usize::tokens(v.n_eval_insn)) + (flat(
            usize::tokens(v.scratch_peak_live),
        ) + flat(bool::tokens(v.scratch_pooled))))))))),
{
    let n = usize::tokens(v.mapped.len() as usize);
    assert(n == seq![Token::Size(v.mapped.len())]);
    lemma_flat_add(u64::tokens(v.digest), n);
    lemma_flat_add(usize::tokens(v.n_gates), u64::tokens(v.digest) + n);
    lemma_flat_add(
        usize::tokens(v.n_wires),
        usize::tokens(v.n_gates) + (u64::tokens(v.digest) + n),
    );
    let t7 = bool::tokens(v.scratch_pooled);
    let t6 = usize::tokens(v.scratch_peak_live) + t7;
    let t5 = usize::tokens(v.n_eval_insn) + t6;
    let t4 = Vec::<u8>::tokens(v.bytecode) + t5;
    let t3 = Vec::<u32>::tokens(v.inout) + t4;
    let t2 = items_tokens::<ValueIndex>(v.mapped) + t3;
    let t1 = ValueVecLayout::tokens(v.value_vec_layout) + t2;
    let t0 = ConstraintSystem::tokens(v.constraint_system) + t1;
    lemma_flat_add(usize::tokens(v.scratch_peak_live), t7);
    lemma_flat_add(usize::tokens(v.n_eval_insn), t6);
    lemma_flat_add(Vec::<u8>::tokens(v.bytecode), t5);
    lemma_flat_add(Vec::<u32>::tokens(v.inout), t4);
    lemma_flat_add(items_tokens::<ValueIndex>(v.mapped), t3);
    lemma_flat_add(ValueVecLayout::tokens(v.value_vec_layout), t2);
    lemma_flat_add(ConstraintSystem::tokens(v.constraint_system), t1);
    lemma_flat_add(count_tokens(v), t0);
}

/// The lengths in a payload fit if each number and each length of a list is below 2^32.
pub proof fn law_field_sizes(v: Payload)
    ensures
        sizes_fit(field_tokens(v)) <==> {
            &&& v.n_wires <= u32::MAX
            &&& v.n_gates <= u32::MAX
            &&& v.mapped.len() <= u32::MAX
            &&& sizes_fit(ConstraintSystem::tokens(v.constraint_system))
            &&& v.value_vec_layout.n_const <= u32::MAX
            &&& v.value_vec_layout.n_inout <= u32::MAX
            &&& v.value_vec_layout.n_witness <= u32::MAX
            &&& v.value_vec_layout.n_internal <= u32::MAX
            &&& v.value_vec_layout.n_scratch <= u32::MAX
            &&& v.inout.len() <= u32::MAX
            &&& v.bytecode.len() <= u32::MAX
            &&& v.n_eval_insn <= u32::MAX
            &&& v.scratch_peak_live <= u32::MAX
        },
{
    broadcast use {lemma_sizes_fit_add, lemma_sizes_fit_one};

    law_number_bytes(0, 0, v.digest, v.scratch_pooled, v.n_wires);
    law_number_bytes(0, 0, v.digest, v.scratch_pooled, v.n_gates);
    law_number_bytes(0, 0, v.digest, v.scratch_pooled, v.n_eval_insn);
    law_number_bytes(0, 0, v.digest, v.scratch_pooled, v.scratch_peak_live);
    law_layout_bytes(v.value_vec_layout);
    assert forall|i: int| 0 <= i < v.mapped.len() implies sizes_fit(
        #[trigger] ValueIndex::tokens(v.mapped[i]),
    ) by {
        law_value_index_bytes(v.mapped[i]);
    }
    lemma_items_fit::<ValueIndex>(v.mapped);
    assert forall|i: int| 0 <= i < v.inout.len() implies sizes_fit(
        #[trigger] u32::tokens(v.inout[i]),
    ) by {
        law_number_bytes(0, v.inout[i], 0, false, 0);
    }
    lemma_items_fit::<u32>(v.inout);
    assert forall|i: int| 0 <= i < v.bytecode.len() implies sizes_fit(
        #[trigger] u8::tokens(v.bytecode[i]),
    ) by {
        law_number_bytes(v.bytecode[i], 0, 0, false, 0);
    }
    lemma_items_fit::<u8>(v.bytecode);
    lemma_list_sizes::<u32>(v.inout);
    lemma_list_sizes::<u8>(v.bytecode);
    lemma_parts_fit(v);
}

/// The lengths in a list fit if its own does and those in its items do.
proof fn lemma_list_sizes<T: SerializeBytes>(items: Seq<<T as DeepView>::V>)
    ensures
        sizes_fit(Vec::<T>::tokens(items)) <==> items.len() <= u32::MAX && sizes_fit(
            items_tokens::<T>(items),
        ),
{
    lemma_sizes_fit_add(seq![Token::Size(items.len())], items_tokens::<T>(items));
    lemma_sizes_fit_one(Token::Size(items.len()));
}

/// The lengths in the fields fit if those in each part do.
proof fn lemma_parts_fit(v: Payload)
    ensures
        sizes_fit(field_tokens(v)) <==> {
            &&& sizes_fit(usize::tokens(v.n_wires))
            &&& sizes_fit(usize::tokens(v.n_gates))
            &&& sizes_fit(u64::tokens(v.digest))
            &&& v.mapped.len() <= u32::MAX
            &&& sizes_fit(ConstraintSystem::tokens(v.constraint_system))
            &&& sizes_fit(ValueVecLayout::tokens(v.value_vec_layout))
            &&& sizes_fit(items_tokens::<ValueIndex>(v.mapped))
            &&& sizes_fit(Vec::<u32>::tokens(v.inout))
            &&& sizes_fit(Vec::<u8>::tokens(v.bytecode))
            &&& sizes_fit(usize::tokens(v.n_eval_insn))
            &&& sizes_fit(usize::tokens(v.scratch_peak_live))
            &&& sizes_fit(bool::tokens(v.scratch_pooled))
        },
{
    broadcast use {lemma_sizes_fit_add, lemma_sizes_fit_one};

}

/// A cache begins with the bytes `B64C`, the number of the layout and the version of this crate;
/// then come the fields; then, in eight bytes, the checksum of all before it.
pub proof fn law_cache_bytes(v: Payload)
    ensures
        ({
            let body = (seq![0x42u8, 0x36, 0x34, 0x43] + (seq![1u8, 0, 0, 0] + (seq![5u8, 0, 0, 0]
                + seq![0x30u8, 0x2e, 0x31, 0x2e, 0x30]))) + flat(field_tokens(v));
            cache_bytes(v) == body + flat(u64::tokens(checksum(body)))
        }),
{
    let fields = flat(field_tokens(v));
    let body = (seq![0x42u8, 0x36, 0x34, 0x43] + (seq![1u8, 0, 0, 0] + (seq![5u8, 0, 0, 0] + seq![
        0x30u8,
        0x2e,
        0x31,
        0x2e,
        0x30,
    ]))) + fields;
    lemma_header_bytes();
    lemma_flat_add(header_tokens(PKG_VERSION@), field_tokens(v));
    assert(flat(body_tokens(v)) == body);
    lemma_flat_one(Token::Raw(le_bytes(checksum(body) as nat, 8)));
}

proof fn lemma_header_bytes()
    ensures
        flat(header_tokens(PKG_VERSION@)) == seq![0x42u8, 0x36, 0x34, 0x43] + (seq![1u8, 0, 0, 0]
            + (seq![5u8, 0, 0, 0] + seq![0x30u8, 0x2e, 0x31, 0x2e, 0x30])),
{
    reveal_strlit("0.1.0");
    is_ascii_chars_encode_utf8(PKG_VERSION@);
    let text = encode_utf8(PKG_VERSION@);
    assert(text =~= seq![0x30u8, 0x2e, 0x31, 0x2e, 0x30]);
    lemma_header_numbers();
    law_text_bytes(PKG_VERSION@);
    assert(flat(str::tokens(PKG_VERSION@)) =~= seq![5u8, 0, 0, 0] + text);
    lemma_flat_add(u32::tokens(CACHE_VERSION), str::tokens(PKG_VERSION@));
    lemma_flat_add(
        u32::tokens(MAGIC),
        u32::tokens(CACHE_VERSION) + str::tokens(PKG_VERSION@),
    );
}

/// What is not a cache, or not whole, is refused before anything of it is read: bytes that do not
/// begin with `B64C`, and bytes whose last eight are not the checksum of the others.
pub proof fn law_unsealed_is_refused(bytes: Seq<u8>)
    ensures
        bytes.take(4) != seq![0x42u8, 0x36, 0x34, 0x43] || bytes.len() < 4 ==> parse_cache(bytes)
            == Err::<Payload, Refusal>(
            Refusal::Deserialize(
                SerializationError::InvalidConstruction { name: "compile_cache::MAGIC" },
            ),
        ),
        bytes.len() >= 4 && bytes.take(4) == seq![0x42u8, 0x36, 0x34, 0x43] && (bytes.len() < 8
            || bytes.skip(bytes.len() - 8) != flat(
            u64::tokens(checksum(bytes.take(bytes.len() - 8))),
        )) ==> parse_cache(bytes) == Err::<Payload, Refusal>(
            Refusal::Deserialize(
                SerializationError::InvalidConstruction { name: "compile_cache::checksum" },
            ),
        ),
{
    broadcast use group_format;

    if bytes.len() >= 4 {
        let front = bytes.take(4);
        lemma_value_of_four(front);
        lemma_le_bytes_of_value(front);
        law_number_bytes(0, MAGIC, 0, false, 0);
        lemma_le_bytes_of_value(seq![0x42u8, 0x36, 0x34, 0x43]);
        lemma_value_of_four(seq![0x42u8, 0x36, 0x34, 0x43]);
        if front == seq![0x42u8, 0x36, 0x34, 0x43] && bytes.len() >= 8 {
            let n = bytes.len() - 8;
            lemma_le_bytes_of_value(bytes.skip(n));
        }
    }
}

/// What is opened was written: the bytes are those of a cache of the payload.
pub proof fn law_opened_was_written(bytes: Seq<u8>)
    ensures
        parse_cache(bytes) matches Ok(v) ==> {
            &&& bytes == cache_bytes(v)
            &&& ConstraintSystem::accepted(v.constraint_system)
            &&& sizes_fit(field_tokens(v))
        },
{
    if parse_cache(bytes) is Ok {
        let n = bytes.len() - 8;
        let body = bytes.take(n);
        lemma_header_canonical(body);
        let (version, s) = parse_header(body)->Ok_0;
        lemma_fields_canonical(s);
        let (v, rest) = parse_fields(s)->Ok_0;
        lemma_joined(header_tokens(PKG_VERSION@), field_tokens(v), body, s, rest);
        assert(body =~= flat(body_tokens(v)));
        lemma_le_bytes_of_value(bytes.skip(n));
        assert(bytes =~= body + bytes.skip(n));
    }
}

proof fn lemma_header_canonical(s: Seq<u8>)
    ensures
        parse_header(s) matches Ok((version, rest)) ==> sizes_fit(header_tokens(version)) && s
            == flat(header_tokens(version)) + rest,
{
    if parse_header(s) is Ok {
        u32::law_canonical(s);
        let (magic, s1) = u32::parse(s)->Ok_0;
        u32::law_canonical(s1);
        let (number, s2) = u32::parse(s1)->Ok_0;
        String::law_canonical(s2);
        let (version, s3) = String::parse(s2)->Ok_0;
        lemma_joined(u32::tokens(number), str::tokens(version), s1, s2, s3);
        lemma_joined(u32::tokens(magic), u32::tokens(number) + str::tokens(version), s, s1, s3);
    }
}

proof fn lemma_counts_canonical(s: Seq<u8>, v: Payload)
    requires
        parse_counts(s) matches Ok((counts, rest)) && v.n_wires == counts.n_wires && v.n_gates
            == counts.n_gates && v.digest == counts.digest && v.mapped.len() == counts.n_mapped,
    ensures
        sizes_fit(count_tokens(v)),
        parse_counts(s) matches Ok((counts, rest)) && s == flat(count_tokens(v)) + rest,
{
    usize::law_canonical(s);
    let (n_wires, s1) = usize::parse(s)->Ok_0;
    usize::law_canonical(s1);
    let (n_gates, s2) = usize::parse(s1)->Ok_0;
    u64::law_canonical(s2);
    let (digest, s3) = u64::parse(s2)->Ok_0;
    usize::law_canonical(s3);
    let (n_mapped, s4) = usize::parse(s3)->Ok_0;
    assert(usize::tokens(n_mapped) == seq![Token::Size(v.mapped.len())]);
    let t2 = usize::tokens(n_mapped);
    let t1 = u64::tokens(digest) + t2;
    let t0 = usize::tokens(n_gates) + t1;
    lemma_joined(u64::tokens(digest), t2, s2, s3, s4);
    lemma_joined(usize::tokens(n_gates), t1, s1, s2, s4);
    lemma_joined(usize::tokens(n_wires), t0, s, s1, s4);
}

proof fn lemma_inout_canonical(s: Seq<u8>)
    ensures
        parse_inout(s) matches Ok((inout, rest)) ==> sizes_fit(Vec::<u32>::tokens(inout)) && s
            == flat(Vec::<u32>::tokens(inout)) + rest,
{
    if parse_inout(s) is Ok {
        usize::law_canonical(s);
        let (n, s1) = usize::parse(s)->Ok_0;
        lemma_items_canonical::<u32>(s1, n as nat);
        let (inout, s2) = parse_items::<u32>(s1, n as nat)->Ok_0;
        lemma_joined(usize::tokens(n), items_tokens::<u32>(inout), s, s1, s2);
    }
}

proof fn lemma_evaluation_canonical(s: Seq<u8>, v: Payload)
    requires
        parse_evaluation(s) matches Ok((e, rest)) && v.bytecode == e.bytecode && v.n_eval_insn
            == e.n_eval_insn && v.scratch_peak_live == e.scratch_peak_live && v.scratch_pooled
            == e.scratch_pooled,
    ensures
        sizes_fit(evaluation_tokens(v)),
        parse_evaluation(s) matches Ok((e, rest)) && s == flat(evaluation_tokens(v)) + rest,
{
    Vec::<u8>::law_canonical(s);
    let (bytecode, s1) = Vec::<u8>::parse(s)->Ok_0;
    usize::law_canonical(s1);
    let (n_eval_insn, s2) = usize::parse(s1)->Ok_0;
    usize::law_canonical(s2);
    let (peak, s3) = usize::parse(s2)->Ok_0;
    bool::law_canonical(s3);
    let (pooled, s4) = bool::parse(s3)->Ok_0;
    let t2 = bool::tokens(pooled);
    let t1 = usize::tokens(peak) + t2;
    let t0 = usize::tokens(n_eval_insn) + t1;
    lemma_joined(usize::tokens(peak), t2, s2, s3, s4);
    lemma_joined(usize::tokens(n_eval_insn), t1, s1, s2, s4);
    lemma_joined(Vec::<u8>::tokens(bytecode), t0, s, s1, s4);
}

proof fn lemma_fields_canonical(s: Seq<u8>)
    ensures
        parse_fields(s) matches Ok((v, rest)) ==> {
            &&& rest.len() == 0
            &&& ConstraintSystem::accepted(v.constraint_system)
            &&& sizes_fit(field_tokens(v))
            &&& s == flat(field_tokens(v)) + rest
        },
{
    if parse_fields(s) is Ok {
        let (v, rest) = parse_fields(s)->Ok_0;
        let (counts, s1) = parse_counts(s)->Ok_0;
        ConstraintSystem::law_canonical(s1);
        let (cs, s2) = ConstraintSystem::parse(s1)->Ok_0;
        ValueVecLayout::law_canonical(s2);
        let (layout, s3) = ValueVecLayout::parse(s2)->Ok_0;
        lemma_items_canonical::<ValueIndex>(s3, counts.n_mapped as nat);
        let (mapped, s4) = parse_items::<ValueIndex>(s3, counts.n_mapped as nat)->Ok_0;
        lemma_inout_canonical(s4);
        let (inout, s5) = parse_inout(s4)->Ok_0;
        lemma_counts_canonical(s, v);
        lemma_evaluation_canonical(s5, v);
        let t4 = evaluation_tokens(v);
        let t3 = Vec::<u32>::tokens(inout) + t4;
        let t2 = items_tokens::<ValueIndex>(mapped) + t3;
        let t1 = ValueVecLayout::tokens(layout) + t2;
        let t0 = ConstraintSystem::tokens(cs) + t1;
        lemma_joined(Vec::<u32>::tokens(inout), t4, s4, s5, rest);
        lemma_joined(items_tokens::<ValueIndex>(mapped), t3, s3, s4, rest);
        lemma_joined(ValueVecLayout::tokens(layout), t2, s2, s3, rest);
        lemma_joined(ConstraintSystem::tokens(cs), t1, s1, s2, rest);
        lemma_joined(count_tokens(v), t0, s, s1, rest);
    }
}

/// What a builder's outputs are written as: the wires' value indices in index order, and the
/// indices of the wires of the public interface.
pub proof fn law_payload(parts: CacheWrite<'_>)
    ensures
        ({
            let v = parts.payload();
            &&& v.n_wires == parts.n_wires
            &&& v.n_gates == parts.n_gates
            &&& v.digest == parts.digest
            &&& v.constraint_system == parts.constraint_system.deep_view()
            &&& v.value_vec_layout == *parts.value_vec_layout
            &&& v.mapped.len() == parts.n_mapped
            &&& forall|index: usize|
                index < parts.n_mapped ==> v.mapped[index as int]
                    == #[trigger] parts.wire_mapping@[index]
            &&& v.inout.len() == parts.inout@.len()
            &&& forall|i: int|
                0 <= i < parts.inout@.len() && (#[trigger] parts.inout@[i]).index <= u32::MAX
                    ==> v.inout[i] == parts.inout@[i].index
            &&& v.bytecode == parts.bytecode@
            &&& v.n_eval_insn == parts.n_eval_insn
            &&& v.scratch_peak_live == parts.scratch_peak_live
            &&& v.scratch_pooled == parts.scratch_pooled
        }),
{
}

/// What is read of a payload: every field of it; a wire's value index from its place, and for the
/// wires beyond them a scratch word; and the wires of the public interface by their indices.
pub proof fn law_read_fields(parts: CompileCacheParts, v: Payload)
    ensures
        parts.records(v) <==> {
            &&& parts.n_wires == v.n_wires
            &&& parts.n_gates == v.n_gates
            &&& parts.digest == v.digest
            &&& parts.constraint_system.deep_view() == v.constraint_system
            &&& parts.value_vec_layout == v.value_vec_layout
            &&& forall|index: usize| #[trigger] parts.wire_mapping@.dom().contains(index)
            &&& forall|index: usize| #[trigger]
                parts.wire_mapping@[index] == if index < v.mapped.len() {
                    v.mapped[index as int]
                } else {
                    ValueIndex::Scratch(0)
                }
            &&& parts.inout@.len() == v.inout.len()
            &&& forall|i: int|
                0 <= i < v.inout.len() ==> (#[trigger] parts.inout@[i]).index == v.inout[i]
            &&& parts.bytecode@ == v.bytecode
            &&& parts.n_eval_insn == v.n_eval_insn
            &&& parts.scratch_peak_live == v.scratch_peak_live
            &&& parts.scratch_pooled == v.scratch_pooled
        },
{
    let mapped = map_of(v.mapped);
    let wires = wires_of(v.inout);
    if forall|index: usize| #[trigger] parts.wire_mapping@.dom().contains(index) {
        if forall|index: usize| #[trigger]
            parts.wire_mapping@[index] == if index < v.mapped.len() {
                v.mapped[index as int]
            } else {
                ValueIndex::Scratch(0)
            } {
            assert(parts.wire_mapping@ =~= mapped);
        }
    }
    if parts.inout@.len() == v.inout.len() {
        if forall|i: int|
            0 <= i < v.inout.len() ==> (#[trigger] parts.inout@[i]).index == v.inout[i] {
            assert forall|i: int| 0 <= i < wires.len() implies parts.inout@[i] == wires[i] by {
                assert(parts.inout@[i].index == v.inout[i]);
            }
            assert(parts.inout@ =~= wires);
        }
    }
}

/// A cache is loaded if and only if it is opened, was written for as many wires and gates and for
/// the digest of the state, and its constraint system has no defect; and then nothing of it is
/// changed. Where it is opened, a difference in the state is told first.
pub proof fn law_loaded(
    bytes: Seq<u8>,
    graph: GateGraph,
    opts: Options,
    force_committed: Set<usize>,
)
    ensures
        ({
            let outcome = load_outcome(bytes, graph, opts, force_committed);
            let digest = state_digest(graph, opts, force_committed);
            match parse_cache(bytes) {
                Err(refusal) => outcome == Err::<Payload, Refusal>(refusal),
                Ok(v) => {
                    let same = v.n_wires == graph.wires@.len() && v.n_gates == graph.gates@.len()
                        && v.digest == digest;
                    &&& outcome is Ok <==> same && v.constraint_system.valid()
                    &&& outcome is Ok ==> outcome == Ok::<Payload, Refusal>(v)
                    &&& !same ==> outcome == Err::<Payload, Refusal>(
                        Refusal::StateMismatch {
                            cached_wires: v.n_wires,
                            cached_gates: v.n_gates,
                            cached_digest: v.digest,
                            built_wires: graph.wires@.len() as usize,
                            built_gates: graph.gates@.len() as usize,
                            built_digest: digest,
                        },
                    )
                    &&& same && !v.constraint_system.valid() ==> (first_error(
                        v.constraint_system,
                    ) matches Some(e) && outcome == Err::<Payload, Refusal>(
                        Refusal::Validation(e),
                    ))
                },
            }
        }),
{
    if let Ok(v) = parse_cache(bytes) {
        law_no_error_iff_valid(v.constraint_system);
    }
}

/// A mapping with a default gives it for every wire.
pub proof fn law_default_mapping(default: ValueIndex, index: usize)
    ensures
        constant_map(default).dom().contains(index),
        constant_map(default)[index] == default,
{
}

/// Where the body of a cache is not written, nor is the cache; where only the checksum does not fit
/// the buffer, the body stays.
pub proof fn law_write_fails(bytes: Seq<u8>, v: Payload)
    ensures
        emit(bytes, body_tokens(v)).error is Some ==> written(bytes, v) == emit(
            bytes,
            body_tokens(v),
        ),
        emit(bytes, body_tokens(v)).error is None && emit(bytes, body_tokens(v)).bytes.len() + 8
            > isize::MAX ==> written(bytes, v) == (Written {
            bytes: emit(bytes, body_tokens(v)).bytes,
            error: Some(SerializationError::WriteBufferFull),
        }),
        emit(bytes, body_tokens(v)).error is None && emit(bytes, body_tokens(v)).bytes.len() + 8
            <= isize::MAX ==> written(bytes, v).error is None,
{
    broadcast use group_format;

    let body = emit(bytes, body_tokens(v)).bytes;
    let sum = checksum(body.skip(bytes.len() as int));
    lemma_le_bytes_len(sum as nat, 8);
    lemma_emit_one(body, Token::Raw(le_bytes(sum as nat, 8)));
}

/// A sealed cache of another layout is refused, whatever follows the layout's number.
pub proof fn law_other_layout_is_refused(rest: Seq<u8>, number: u32)
    requires
        number != 1,
    ensures
        ({
            let body = seq![0x42u8, 0x36, 0x34, 0x43] + (flat(u32::tokens(number)) + rest);
            parse_cache(body + flat(u64::tokens(checksum(body)))) == Err::<Payload, Refusal>(
                Refusal::Deserialize(
                    SerializationError::InvalidConstruction {
                        name: "compile_cache::CACHE_VERSION",
                    },
                ),
            )
        }),
{
    let tail = flat(u32::tokens(number)) + rest;
    lemma_header_numbers();
    lemma_whole(tail);
    law_number_bytes(0, MAGIC, 0, false, 0);
    law_number_bytes(0, number, 0, false, 0);
    u32::law_round_trip(MAGIC, tail);
    u32::law_round_trip(number, rest);
}

/// A sealed cache with this crate's layout that another version of the crate wrote is refused,
/// whatever follows the version; one that this version wrote is read on from there.
pub proof fn law_version_decides(rest: Seq<u8>, version: Seq<char>)
    requires
        encode_utf8(version).len() <= u32::MAX,
    ensures
        ({
            let body = seq![0x42u8, 0x36, 0x34, 0x43] + (seq![1u8, 0, 0, 0] + (flat(
                str::tokens(version),
            ) + rest));
            parse_cache(body + flat(u64::tokens(checksum(body)))) == if version != PKG_VERSION@ {
                Err::<Payload, Refusal>(
                    Refusal::VersionMismatch { cached: version, current: PKG_VERSION@ },
                )
            } else {
                match parse_fields(rest) {
                    Ok((v, _)) => Ok(v),
                    Err((e, _)) => Err(Refusal::Deserialize(e)),
                }
            }
        }),
{
    let named = flat(str::tokens(version)) + rest;
    lemma_header_numbers();
    lemma_whole(seq![1u8, 0, 0, 0] + named);
    law_number_bytes(0, MAGIC, 0, false, 0);
    law_number_bytes(0, CACHE_VERSION, 0, false, 0);
    law_text_bytes(version);
    u32::law_round_trip(MAGIC, seq![1u8, 0, 0, 0] + named);
    u32::law_round_trip(CACHE_VERSION, named);
    String::law_round_trip(version, rest);
}

proof fn lemma_header_numbers()
    ensures
        flat(u32::tokens(MAGIC)) == seq![0x42u8, 0x36, 0x34, 0x43],
        flat(u32::tokens(CACHE_VERSION)) == seq![1u8, 0, 0, 0],
{
    law_number_bytes(0, MAGIC, 0, false, 0);
    assert(flat(u32::tokens(MAGIC)) =~= seq![0x42u8, 0x36, 0x34, 0x43]);
    law_number_bytes(0, CACHE_VERSION, 0, false, 0);
    assert(flat(u32::tokens(CACHE_VERSION)) =~= seq![1u8, 0, 0, 0]);
}

/// What begins with the magic and ends with the checksum is whole.
proof fn lemma_whole(rest: Seq<u8>)
    ensures
        ({
            let body = seq![0x42u8, 0x36, 0x34, 0x43] + rest;
            let bytes = body + flat(u64::tokens(checksum(body)));
            &&& begins_with_magic(bytes)
            &&& sealed(bytes)
            &&& bytes.take(bytes.len() - 8) == body
        }),
{
    let body = seq![0x42u8, 0x36, 0x34, 0x43] + rest;
    let sum = checksum(body);
    let bytes = body + flat(u64::tokens(sum));
    lemma_flat_one(Token::Raw(le_bytes(sum as nat, 8)));
    lemma_le_bytes_len(sum as nat, 8);
    lemma_le_limits();
    lemma_le_value_of_bytes(sum as nat, 8);
    assert(bytes.take(4) =~= seq![0x42u8, 0x36, 0x34, 0x43]);
    lemma_value_of_four(bytes.take(4));
    assert(bytes.take(bytes.len() - 8) =~= body);
    assert(bytes.skip(bytes.len() - 8) =~= le_bytes(sum as nat, 8));
}

/// A list of wires that is longer than what is left of the bytes is refused before it is read.
pub proof fn law_long_inout_is_refused(s: Seq<u8>)
    requires
        s.len() >= 4,
    ensures
        ({
            let n = s[0] + 0x100 * s[1] + 0x1_0000 * s[2] + 0x100_0000 * s[3];
            4 * n > s.len() - 4 ==> parse_inout(s) == Err::<
                (Seq<u32>, Seq<u8>),
                (SerializationError, Seq<u8>),
            >(
                (
                    SerializationError::InvalidConstruction { name: "compile_cache::n_inout" },
                    s.skip(4),
                ),
            )
        }),
{
    law_numbers_read(s);
}

/// A list names the wires of a set if its indices ascend and are those in the set; and a set has no
/// other such list.
pub proof fn law_listed_wires(set: Set<usize>, wires: Seq<Wire>)
    ensures
        lists_wires(set, wires) <==> {
            &&& forall|i: int, j: int|
                0 <= i < j < wires.len() ==> (#[trigger] wires[i]).index < (
                #[trigger] wires[j]).index
            &&& forall|i: int| 0 <= i < wires.len() ==> set.contains((#[trigger] wires[i]).index)
            &&& forall|index: usize| #[trigger]
                set.contains(index) ==> exists|i: int|
                    0 <= i < wires.len() && (#[trigger] wires[i]).index == index
        },
        lists_wires(set, wires) ==> wires == ascending_wires(set),
{
    if lists_wires(set, wires) {
        lemma_lists_wires_unique(set, wires, ascending_wires(set));
    }
}

/// A refusal says what the error says, field by field.
pub proof fn law_told_refusals(e: CompileCacheError)
    ensures
        match e {
            CompileCacheError::Deserialize(why) => e.deep_view() == Refusal::Deserialize(why),
            CompileCacheError::VersionMismatch { cached, current } => e.deep_view()
                == (Refusal::VersionMismatch { cached: cached@, current: current@ }),
            CompileCacheError::StateMismatch {
                cached_wires,
                cached_gates,
                cached_digest,
                built_wires,
                built_gates,
                built_digest,
            } => e.deep_view() == (Refusal::StateMismatch {
                cached_wires,
                cached_gates,
                cached_digest,
                built_wires,
                built_gates,
                built_digest,
            }),
            CompileCacheError::Validation(why) => e.deep_view() == Refusal::Validation(why),
        },
{
}

/// A layout is refused for the first of its sizes that is not read, and as that size is.
pub proof fn law_layout_refused(
    n_const: usize,
    n_inout: usize,
    n_witness: usize,
    n_internal: usize,
    rest: Seq<u8>,
)
    requires
        usize::accepted(n_const),
        sizes_fit(usize::tokens(n_const)),
        usize::accepted(n_inout),
        sizes_fit(usize::tokens(n_inout)),
        usize::accepted(n_witness),
        sizes_fit(usize::tokens(n_witness)),
        usize::accepted(n_internal),
        sizes_fit(usize::tokens(n_internal)),
    ensures
        usize::parse(rest) matches Err(e) ==> ValueVecLayout::parse(rest) == Err::<
            (ValueVecLayout, Seq<u8>),
            (SerializationError, Seq<u8>),
        >(e),
        usize::parse(rest) matches Err(e) ==> ValueVecLayout::parse(flat(usize::tokens(n_const))
            + rest) == Err::<
            (ValueVecLayout, Seq<u8>),
            (SerializationError, Seq<u8>),
        >(e),
        usize::parse(rest) matches Err(e) ==> ValueVecLayout::parse(flat(usize::tokens(n_const))
            + (flat(usize::tokens(n_inout)) + rest)) == Err::<
            (ValueVecLayout, Seq<u8>),
            (SerializationError, Seq<u8>),
        >(e),
        usize::parse(rest) matches Err(e) ==> ValueVecLayout::parse(flat(usize::tokens(n_const))
            + (flat(usize::tokens(n_inout)) + (flat(usize::tokens(n_witness)) + rest))) == Err::<
            (ValueVecLayout, Seq<u8>),
            (SerializationError, Seq<u8>),
        >(e),
        usize::parse(rest) matches Err(e) ==> ValueVecLayout::parse(flat(usize::tokens(n_const))
            + (flat(usize::tokens(n_inout)) + (flat(usize::tokens(n_witness))
            + (flat(usize::tokens(n_internal)) + rest)))) == Err::<
            (ValueVecLayout, Seq<u8>),
            (SerializationError, Seq<u8>),
        >(e),
{
    usize::law_round_trip(n_const, rest);
    usize::law_round_trip(n_const, flat(usize::tokens(n_inout)) + rest);
    usize::law_round_trip(n_inout, rest);
    usize::law_round_trip(n_const, flat(usize::tokens(n_inout)) + (flat(usize::tokens(n_witness))
        + rest));
    usize::law_round_trip(n_inout, flat(usize::tokens(n_witness)) + rest);
    usize::law_round_trip(n_witness, rest);
    usize::law_round_trip(n_const, flat(usize::tokens(n_inout)) + (flat(usize::tokens(n_witness))
        + (flat(usize::tokens(n_internal)) + rest)));
    usize::law_round_trip(n_inout, flat(usize::tokens(n_witness)) + (flat(usize::tokens(n_internal))
        + rest));
    usize::law_round_trip(n_witness, flat(usize::tokens(n_internal)) + rest);
    usize::law_round_trip(n_internal, rest);
}

} // verus!
