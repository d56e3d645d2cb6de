//! The byte format of key collections.

use std::ops::Range;

use vstd::prelude::*;

use crate::constraint_system::{
    seq_code_model, seq_wf, ConstraintSystem, ConstraintSystemModel, InoutSegment, Shift,
};
use crate::key_collection::collection::{law_collection_unique, KeyCollection, KeyCollectionModel};
use crate::key_collection::dense_shift_encoding::{pair_code, pairs_ascend, DenseShiftEncoding};
use crate::key_collection::key::{ConstraintIndex, Key, KeyModel, Operation};
use crate::key_collection::key_segment::{KeySegment, KeySegmentModel};
use crate::key_collection::model::{
    flat_constraints, hidden_groups, lemma_count_below_bounds, lemma_segment_size, public_groups,
    references, KeyGroup,
};
use crate::serialization::format::{
    emit, flat, group_format, lemma_emit_add, lemma_joined, lemma_split, sizes_fit,
        DeserializeBytes, Parsed,
    SerializationError, SerializeBytes, Token, Written,
};
use crate::serialization::primitives::{
    deserialize_items, items_tokens, lemma_items_canonical, lemma_items_fit, lemma_items_round_trip,
    parse_items,
};

verus! {

impl DeepView for Operation {
    type V = Operation;

    open spec fn deep_view(&self) -> Operation {
        *self
    }
}

/// An operation is written as its place in the order of the operations.
impl SerializeBytes for Operation {
    open spec fn tokens(v: Operation) -> Seq<Token> {
        u8::tokens(v.code_model() as u8)
    }

    fn serialize(&self, out: &mut Vec<u8>) -> (result: Result<(), SerializationError>) {
        let code: u8 = match *self {
            Operation::Zero => 0,
            Operation::BitwiseAnd => 1,
            Operation::IntegerMul => 2,
            Operation::BinMul => 3,
        };
        code.serialize(out)
    }
}

impl DeserializeBytes for Operation {
    open spec fn accepted(v: Operation) -> bool {
        true
    }

    open spec fn parse(s: Seq<u8>) -> Parsed<Operation> {
        match u8::parse(s) {
            Ok((index, s)) => match index {
                0 => Ok((Operation::Zero, s)),
                1 => Ok((Operation::BitwiseAnd, s)),
                2 => Ok((Operation::IntegerMul, s)),
                3 => Ok((Operation::BinMul, s)),
                _ => Err((SerializationError::UnknownEnumVariant { name: "Operation", index }, s)),
            },
            Err(e) => Err(e),
        }
    }

    fn deserialize(buf: &mut &[u8]) -> (result: Result<Operation, SerializationError>) {
        let index: u8 = u8::deserialize(buf)?;
        match index {
            0 => Ok(Operation::Zero),
            1 => Ok(Operation::BitwiseAnd),
            2 => Ok(Operation::IntegerMul),
            3 => Ok(Operation::BinMul),
            _ => Err(SerializationError::UnknownEnumVariant { name: "Operation", index }),
        }
    }

    proof fn law_canonical(s: Seq<u8>) {
        u8::law_canonical(s);
    }

    proof fn law_round_trip(v: Operation, rest: Seq<u8>) {
        u8::law_round_trip(v.code_model() as u8, rest);
    }
}

impl DeepView for ConstraintIndex {
    type V = ConstraintIndex;

    open spec fn deep_view(&self) -> ConstraintIndex {
        *self
    }
}

impl SerializeBytes for ConstraintIndex {
    open spec fn tokens(v: ConstraintIndex) -> Seq<Token> {
        <(u8, u32)>::tokens((v.operand_index, v.constraint_index))
    }

    fn serialize(&self, out: &mut Vec<u8>) -> (result: Result<(), SerializationError>) {
        (self.operand_index, self.constraint_index).serialize(out)
    }
}

impl DeserializeBytes for ConstraintIndex {
    open spec fn accepted(v: ConstraintIndex) -> bool {
        true
    }

    open spec fn parse(s: Seq<u8>) -> Parsed<ConstraintIndex> {
        match <(u8, u32)>::parse(s) {
            Ok(((operand_index, constraint_index), s)) => Ok(
                (ConstraintIndex { operand_index, constraint_index }, s),
            ),
            Err(e) => Err(e),
        }
    }

    fn deserialize(buf: &mut &[u8]) -> (result: Result<ConstraintIndex, SerializationError>) {
        let parts = <(u8, u32)>::deserialize(buf)?;
        Ok(ConstraintIndex { operand_index: parts.0, constraint_index: parts.1 })
    }

    proof fn law_canonical(s: Seq<u8>) {
        <(u8, u32)>::law_canonical(s);
    }

    proof fn law_round_trip(v: ConstraintIndex, rest: Seq<u8>) {
        <(u8, u32)>::law_round_trip((v.operand_index, v.constraint_index), rest);
    }
}

impl SerializeBytes for Key {
    open spec fn tokens(v: KeyModel) -> Seq<Token> {
        Operation::tokens(v.operation) + (u32::tokens(v.dense_shift_idx) + <(u32, u32)>::tokens(
            (v.start, v.end),
        ))
    }

    fn serialize(&self, out: &mut Vec<u8>) -> (result: Result<(), SerializationError>) {
        broadcast use group_format;

        self.operation.serialize(out)?;
        self.dense_shift_idx.serialize(out)?;
        (self.range.start, self.range.end).serialize(out)
    }
}

impl DeserializeBytes for Key {
    open spec fn accepted(v: KeyModel) -> bool {
        true
    }

    open spec fn parse(s: Seq<u8>) -> Parsed<KeyModel> {
        match Operation::parse(s) {
            Ok((operation, s)) => match u32::parse(s) {
                Ok((dense_shift_idx, s)) => match <(u32, u32)>::parse(s) {
                    Ok(((start, end), s)) => Ok(
                        (KeyModel { operation, dense_shift_idx, start, end }, s),
                    ),
                    Err(e) => Err(e),
                },
                Err(e) => Err(e),
            },
            Err(e) => Err(e),
        }
    }

    fn deserialize(buf: &mut &[u8]) -> (result: Result<Key, SerializationError>) {
        let operation = Operation::deserialize(buf)?;
        let dense_shift_idx: u32 = u32::deserialize(buf)?;
        let range = <(u32, u32)>::deserialize(buf)?;
        Ok(Key { operation, dense_shift_idx, range: range.0..range.1 })
    }

    proof fn law_canonical(s: Seq<u8>) {
        let s0 = s;
        Operation::law_canonical(s0);
        if let Ok((operation, s1)) = Operation::parse(s0) {
            u32::law_canonical(s1);
            if let Ok((dense_shift_idx, s2)) = u32::parse(s1) {
                <(u32, u32)>::law_canonical(s2);
                if let Ok((range, s3)) = <(u32, u32)>::parse(s2) {
                    let t1 = <(u32, u32)>::tokens(range);
                    lemma_joined(u32::tokens(dense_shift_idx), t1, s1, s2, s3);
                    let t0 = u32::tokens(dense_shift_idx) + t1;
                    lemma_joined(Operation::tokens(operation), t0, s0, s1, s3);
                }
            }
        }
    }

    proof fn law_round_trip(v: KeyModel, rest: Seq<u8>) {
        let t2 = <(u32, u32)>::tokens((v.start, v.end));
        let t1 = u32::tokens(v.dense_shift_idx) + t2;
        lemma_split(Operation::tokens(v.operation), t1, rest);
        lemma_split(u32::tokens(v.dense_shift_idx), t2, rest);
        Operation::law_round_trip(v.operation, flat(t1) + rest);
        u32::law_round_trip(v.dense_shift_idx, flat(t2) + rest);
        <(u32, u32)>::law_round_trip((v.start, v.end), rest);
    }
}

/// The sequences are written in order, each as its inner and its outer shift.
impl SerializeBytes for DenseShiftEncoding {
    open spec fn tokens(v: Seq<(Shift, Shift)>) -> Seq<Token> {
        Vec::<(Shift, Shift)>::tokens(v)
    }

    fn serialize(&self, out: &mut Vec<u8>) -> (result: Result<(), SerializationError>) {
        let seqs = self.iter();
        let ghost all = self.deep_view();
        proof {
            lemma_emit_add(out@, usize::tokens(all.len() as usize), items_tokens::<(Shift,
                Shift)>(all));
        }
        seqs.len().serialize(out)?;
        let mut i: usize = 0;
        assert(all.skip(0) =~= all);
        while i < seqs.len()
            invariant
                all == self.deep_view(),
                seqs@ == self.seqs(),
                i <= seqs@.len(),
                emit(old(out)@, Self::tokens(all)) == emit(
                    out@,
                    items_tokens::<(Shift, Shift)>(all.skip(i as int)),
                ),
            decreases seqs@.len() - i,
        {
            let pair = (seqs[i][0], seqs[i][1]);
            proof {
                let left = all.skip(i as int);
                assert(left.skip(1) =~= all.skip(i + 1));
                assert(left[0] == pair.deep_view());
                lemma_emit_add(
                    out@,
                    <(Shift, Shift)>::tokens(left[0]),
                    items_tokens::<(Shift, Shift)>(left.skip(1)),
                );
            }
            pair.serialize(out)?;
            i += 1;
        }
        Ok(())
    }
}

/// Sequences that are not in order are refused.
impl DeserializeBytes for DenseShiftEncoding {
    open spec fn accepted(v: Seq<(Shift, Shift)>) -> bool {
        pairs_ascend(v)
    }

    open spec fn parse(s: Seq<u8>) -> Parsed<Seq<(Shift, Shift)>> {
        match Vec::<(Shift, Shift)>::parse(s) {
            Ok((pairs, s)) => if pairs_ascend(pairs) {
                Ok((pairs, s))
            } else {
                Err((SerializationError::InvalidConstruction { name: "DenseShiftEncoding" }, s))
            },
            Err(e) => Err(e),
        }
    }

    fn deserialize(buf: &mut &[u8]) -> (result: Result<DenseShiftEncoding, SerializationError>) {
        let pairs = Vec::<(Shift, Shift)>::deserialize(buf)?;
        assert(pairs.deep_view() =~= pairs@);
        match DenseShiftEncoding::from_ascending(pairs) {
            Some(encoding) => Ok(encoding),
            None => Err(SerializationError::InvalidConstruction { name: "DenseShiftEncoding" }),
        }
    }

    proof fn law_canonical(s: Seq<u8>) {
        Vec::<(Shift, Shift)>::law_canonical(s);
    }

    proof fn law_round_trip(v: Seq<(Shift, Shift)>, rest: Seq<u8>) {
        Vec::<(Shift, Shift)>::law_round_trip(v, rest);
    }
}

/// The number of word ranges is written in four bytes, its lowest ones.
impl SerializeBytes for KeySegment {
    open spec fn tokens(v: KeySegmentModel) -> Seq<Token> {
        Vec::<Key>::tokens(v.keys) + (u32::tokens(v.key_ranges.len() as u32) + (items_tokens::<
            (u32, u32),
        >(v.key_ranges) + (Vec::<ConstraintIndex>::tokens(v.constraint_indices)
            + DenseShiftEncoding::tokens(v.shift_seqs))))
    }

    fn serialize(&self, out: &mut Vec<u8>) -> (result: Result<(), SerializationError>) {
        broadcast use group_format;

        let ghost all = self.deep_view().key_ranges;
        assert(self.constraint_indices.deep_view() =~= self.constraint_indices@);
        self.keys.serialize(out)?;
        (self.key_ranges.len() as u32).serialize(out)?;
        serialize_ranges(&self.key_ranges, out)?;
        self.constraint_indices.serialize(out)?;
        self.dense_shift_enc.serialize(out)
    }
}

/// Writes the starts and ends of word ranges.
fn serialize_ranges(ranges: &Vec<Range<u32>>, out: &mut Vec<u8>) -> (result: Result<
    (),
    SerializationError,
>)
    ensures
        emit(
            old(out)@,
            items_tokens::<(u32, u32)>(ranges@.map_values(|r: Range<u32>| (r.start, r.end))),
        ) == (Written { bytes: final(out)@, error: result.err() }),
{
    let ghost all = ranges@.map_values(|r: Range<u32>| (r.start, r.end));
    let mut i: usize = 0;
    assert(all.skip(0) =~= all);
    while i < ranges.len()
        invariant
            all == ranges@.map_values(|r: Range<u32>| (r.start, r.end)),
            i <= ranges@.len(),
            emit(old(out)@, items_tokens::<(u32, u32)>(all)) == emit(
                out@,
                items_tokens::<(u32, u32)>(all.skip(i as int)),
            ),
        decreases ranges@.len() - i,
    {
        let pair = (ranges[i].start, ranges[i].end);
        proof {
            let left = all.skip(i as int);
            assert(left.skip(1) =~= all.skip(i + 1));
            assert(left[0] == pair.deep_view());
            lemma_emit_add(
                out@,
                <(u32, u32)>::tokens(left[0]),
                items_tokens::<(u32, u32)>(left.skip(1)),
            );
        }
        pair.serialize(out)?;
        i += 1;
    }
    Ok(())
}

impl DeserializeBytes for KeySegment {
    open spec fn accepted(v: KeySegmentModel) -> bool {
        v.key_ranges.len() <= u32::MAX && pairs_ascend(v.shift_seqs)
    }

    open spec fn parse(s: Seq<u8>) -> Parsed<KeySegmentModel> {
        match Vec::<Key>::parse(s) {
            Ok((keys, s)) => match u32::parse(s) {
                Ok((len, s)) => match parse_items::<(u32, u32)>(s, len as nat) {
                    Ok((key_ranges, s)) => match Vec::<ConstraintIndex>::parse(s) {
                        Ok((constraint_indices, s)) => match DenseShiftEncoding::parse(s) {
                            Ok((shift_seqs, s)) => Ok(
                                (
                                    KeySegmentModel {
                                        keys,
                                        key_ranges,
                                        constraint_indices,
                                        shift_seqs,
                                    },
                                    s,
                                ),
                            ),
                            Err(e) => Err(e),
                        },
                        Err(e) => Err(e),
                    },
                    Err(e) => Err(e),
                },
                Err(e) => Err(e),
            },
            Err(e) => Err(e),
        }
    }

    fn deserialize(buf: &mut &[u8]) -> (result: Result<KeySegment, SerializationError>) {
        let keys = Vec::<Key>::deserialize(buf)?;
        let len: u32 = u32::deserialize(buf)?;
        let pairs = deserialize_items::<(u32, u32)>(buf, len as usize)?;
        let key_ranges = ranges_of(&pairs);
        let constraint_indices = Vec::<ConstraintIndex>::deserialize(buf)?;
        let dense_shift_enc = DenseShiftEncoding::deserialize(buf)?;
        assert(pairs.deep_view() =~= pairs@);
        assert(constraint_indices.deep_view() =~= constraint_indices@);
        Ok(KeySegment { keys, key_ranges, constraint_indices, dense_shift_enc })
    }

    proof fn law_canonical(s: Seq<u8>) {
        Vec::<Key>::law_canonical(s);
        if let Ok((keys, s1)) = Vec::<Key>::parse(s) {
            u32::law_canonical(s1);
            if let Ok((len, s2)) = u32::parse(s1) {
                lemma_items_canonical::<(u32, u32)>(s2, len as nat);
                if let Ok((key_ranges, s3)) = parse_items::<(u32, u32)>(s2, len as nat) {
                    Vec::<ConstraintIndex>::law_canonical(s3);
                    if let Ok((constraint_indices, s4)) = Vec::<ConstraintIndex>::parse(s3) {
                        DenseShiftEncoding::law_canonical(s4);
                        if let Ok((shift_seqs, s5)) = DenseShiftEncoding::parse(s4) {
                            let t3 = DenseShiftEncoding::tokens(shift_seqs);
                            let t2 = Vec::<ConstraintIndex>::tokens(constraint_indices) + t3;
                            let t1 = items_tokens::<(u32, u32)>(key_ranges) + t2;
                            lemma_joined(
                                Vec::<ConstraintIndex>::tokens(constraint_indices),
                                t3,
                                s3,
                                s4,
                                s5,
                            );
                            lemma_joined(items_tokens::<(u32, u32)>(key_ranges), t2, s2, s3, s5);
                            lemma_joined(u32::tokens(len), t1, s1, s2, s5);
                            lemma_joined(
                                Vec::<Key>::tokens(keys),
                                u32::tokens(len) + t1,
                                s,
                                s1,
                                s5,
                            );
                        }
                    }
                }
            }
        }
    }

    proof fn law_round_trip(v: KeySegmentModel, rest: Seq<u8>) {
        let t4 = DenseShiftEncoding::tokens(v.shift_seqs);
        let t3 = Vec::<ConstraintIndex>::tokens(v.constraint_indices) + t4;
        let t2 = items_tokens::<(u32, u32)>(v.key_ranges) + t3;
        let t1 = u32::tokens(v.key_ranges.len() as u32) + t2;
        lemma_split(Vec::<Key>::tokens(v.keys), t1, rest);
        lemma_split(u32::tokens(v.key_ranges.len() as u32), t2, rest);
        lemma_split(items_tokens::<(u32, u32)>(v.key_ranges), t3, rest);
        lemma_split(Vec::<ConstraintIndex>::tokens(v.constraint_indices), t4, rest);
        Vec::<Key>::law_round_trip(v.keys, flat(t1) + rest);
        u32::law_round_trip(v.key_ranges.len() as u32, flat(t2) + rest);
        lemma_items_round_trip::<(u32, u32)>(v.key_ranges, flat(t3) + rest);
        Vec::<ConstraintIndex>::law_round_trip(v.constraint_indices, flat(t4) + rest);
        DenseShiftEncoding::law_round_trip(v.shift_seqs, rest);
    }
}

/// The ranges with these starts and ends.
fn ranges_of(pairs: &Vec<(u32, u32)>) -> (ranges: Vec<Range<u32>>)
    ensures
        ranges@.map_values(|r: Range<u32>| (r.start, r.end)) == pairs@,
{
    let mut ranges: Vec<Range<u32>> = Vec::with_capacity(pairs.len());
    let mut i: usize = 0;
    while i < pairs.len()
        invariant
            i <= pairs@.len(),
            ranges@.len() == i,
            forall|k: int|
                0 <= k < i ==> (#[trigger] ranges@[k]).start == pairs@[k].0 && ranges@[k].end
                    == pairs@[k].1,
        decreases pairs@.len() - i,
    {
        ranges.push(pairs[i].0..pairs[i].1);
        i += 1;
    }
    assert(ranges@.map_values(|r: Range<u32>| (r.start, r.end)) =~= pairs@);
    ranges
}

/// The public half is written first.
impl SerializeBytes for KeyCollection {
    open spec fn tokens(v: KeyCollectionModel) -> Seq<Token> {
        KeySegment::tokens(v.public) + KeySegment::tokens(v.hidden)
    }

    fn serialize(&self, out: &mut Vec<u8>) -> (result: Result<(), SerializationError>) {
        broadcast use group_format;

        self.public.serialize(out)?;
        self.hidden.serialize(out)
    }
}

impl DeserializeBytes for KeyCollection {
    open spec fn accepted(v: KeyCollectionModel) -> bool {
        KeySegment::accepted(v.public) && KeySegment::accepted(v.hidden)
    }

    open spec fn parse(s: Seq<u8>) -> Parsed<KeyCollectionModel> {
        match KeySegment::parse(s) {
            Ok((public, s)) => match KeySegment::parse(s) {
                Ok((hidden, s)) => Ok((KeyCollectionModel { public, hidden }, s)),
                Err(e) => Err(e),
            },
            Err(e) => Err(e),
        }
    }

    fn deserialize(buf: &mut &[u8]) -> (result: Result<KeyCollection, SerializationError>) {
        let public = KeySegment::deserialize(buf)?;
        let hidden = KeySegment::deserialize(buf)?;
        Ok(KeyCollection { public, hidden })
    }

    proof fn law_canonical(s: Seq<u8>) {
        let s0 = s;
        KeySegment::law_canonical(s0);
        if let Ok((public, s1)) = KeySegment::parse(s0) {
            KeySegment::law_canonical(s1);
            if let Ok((hidden, s2)) = KeySegment::parse(s1) {
                let t0 = KeySegment::tokens(hidden);
                lemma_joined(KeySegment::tokens(public), t0, s0, s1, s2);
            }
        }
    }

    proof fn law_round_trip(v: KeyCollectionModel, rest: Seq<u8>) {
        lemma_split(KeySegment::tokens(v.public), KeySegment::tokens(v.hidden), rest);
        KeySegment::law_round_trip(v.public, flat(KeySegment::tokens(v.hidden)) + rest);
        KeySegment::law_round_trip(v.hidden, rest);
    }
}

/// The lengths in a segment that stands for a list of groups fit, if there are not too many words
/// and uses.
proof fn lemma_segment_accepted(segment: KeySegment, words: Seq<Seq<KeyGroup>>)
    requires
        segment.represents(words),
        words.len() <= u32::MAX,
        words.flatten().len() <= u32::MAX,
        flat_constraints(words.flatten()).len() <= u32::MAX,
    ensures
        KeySegment::accepted(segment.deep_view()),
        sizes_fit(KeySegment::tokens(segment.deep_view())),
{
    broadcast use group_format;

    let v = segment.deep_view();
    let seqs = segment.dense_shift_enc.seqs();
    assert forall|i: int| 0 <= i < v.shift_seqs.len() implies (#[trigger] v.shift_seqs[i]).0.wf()
        && v.shift_seqs[i].1.wf() by {
        assert(seq_wf(seqs[i]));
    }
    assert forall|i: int, j: int| 0 <= i < j < v.shift_seqs.len() implies pair_code(
        #[trigger] v.shift_seqs[i],
    ) < pair_code(#[trigger] v.shift_seqs[j]) by {
        assert(seq_code_model(seqs[i]) < seq_code_model(seqs[j]));
    }
    assert forall|i: int| 0 <= i < v.keys.len() implies sizes_fit(
        #[trigger] Key::tokens(v.keys[i]),
    ) by {}
    assert forall|i: int| 0 <= i < v.key_ranges.len() implies sizes_fit(
        #[trigger] <(u32, u32)>::tokens(v.key_ranges[i]),
    ) by {}
    assert forall|i: int| 0 <= i < v.constraint_indices.len() implies sizes_fit(
        #[trigger] ConstraintIndex::tokens(v.constraint_indices[i]),
    ) by {}
    assert forall|i: int| 0 <= i < v.shift_seqs.len() implies sizes_fit(
        #[trigger] <(Shift, Shift)>::tokens(v.shift_seqs[i]),
    ) by {}
    lemma_items_fit::<Key>(v.keys);
    lemma_items_fit::<(u32, u32)>(v.key_ranges);
    lemma_items_fit::<ConstraintIndex>(v.constraint_indices);
    lemma_items_fit::<(Shift, Shift)>(v.shift_seqs);
}

/// The key collection of a constraint system is read back as it was written, whatever follows it.
pub proof fn law_collection_round_trip(
    collection: KeyCollection,
    cs: ConstraintSystem,
    inout: InoutSegment,
    rest: Seq<u8>,
)
    requires
        cs.deep_view().valid(),
        cs.deep_view().value_vec_len() <= u32::MAX,
        references(cs.deep_view()).len() <= u32::MAX,
        collection.represents(cs.deep_view(), inout),
    ensures
        sizes_fit(KeyCollection::tokens(collection.deep_view())),
        KeyCollection::parse(flat(KeyCollection::tokens(collection.deep_view())) + rest) == Ok::<
            (KeyCollectionModel, Seq<u8>),
            (SerializationError, Seq<u8>),
        >((collection.deep_view(), rest)),
{
    broadcast use group_format;

    let csm = cs.deep_view();
    let all = references(csm);
    let n_public = csm.n_public_words(inout);
    lemma_segment_size(all, 0, n_public);
    lemma_segment_size(all, n_public, csm.value_vec_len());
    lemma_count_below_bounds(all, n_public);
    lemma_count_below_bounds(all, csm.value_vec_len());
    lemma_segment_accepted(collection.public, public_groups(csm, inout));
    lemma_segment_accepted(collection.hidden, hidden_groups(csm, inout));
    KeyCollection::law_round_trip(collection.deep_view(), rest);
}

/// However a constraint system's key collection was built, its bytes are the same.
pub proof fn law_same_bytes(
    a: KeyCollection,
    b: KeyCollection,
    cs: ConstraintSystemModel,
    inout: InoutSegment,
)
    requires
        a.represents(cs, inout),
        b.represents(cs, inout),
    ensures
        KeyCollection::tokens(a.deep_view()) == KeyCollection::tokens(b.deep_view()),
{
    law_collection_unique(a, b, cs, inout);
}

} // verus!
