//! The bytes of a key collection, part by part, and which encodings are read.

use vstd::prelude::*;

use crate::constraint_system::{seq_code_model, Shift};
use crate::key_collection::collection::{KeyCollection, KeyCollectionModel};
use crate::key_collection::dense_shift_encoding::{pairs_ascend, DenseShiftEncoding};
use crate::key_collection::key::{ConstraintIndex, Key, KeyModel, Operation};
use crate::key_collection::key_segment::{KeySegment, KeySegmentModel};
use crate::serialization::format::{
    flat, group_format, sizes_fit, DeserializeBytes, SerializationError, SerializeBytes,
};
use crate::serialization::laws::{law_number_bytes, law_numbers_read, law_pair_bytes};
use crate::serialization::primitives::{
    items_accepted, items_tokens, lemma_items_round_trip, parse_items,
};

verus! {

/// An operation is one byte.
pub proof fn law_operation_bytes(operation: Operation)
    ensures
        flat(Operation::tokens(operation)) == seq![
            match operation {
                Operation::Zero => 0u8,
                Operation::BitwiseAnd => 1,
                Operation::IntegerMul => 2,
                Operation::BinMul => 3,
            },
        ],
        sizes_fit(Operation::tokens(operation)),
{
    broadcast use group_format;

}

/// An operation is read from a byte below four.
pub proof fn law_operation_read(s: Seq<u8>)
    ensures
        s.len() < 1 ==> Operation::parse(s) == Err::<
            (Operation, Seq<u8>),
            (SerializationError, Seq<u8>),
        >((SerializationError::NotEnoughData, s)),
        s.len() >= 1 ==> Operation::parse(s) == match s[0] {
            0 => Ok::<(Operation, Seq<u8>), (SerializationError, Seq<u8>)>(
                (Operation::Zero, s.skip(1)),
            ),
            1 => Ok((Operation::BitwiseAnd, s.skip(1))),
            2 => Ok((Operation::IntegerMul, s.skip(1))),
            3 => Ok((Operation::BinMul, s.skip(1))),
            index => Err(
                (SerializationError::UnknownEnumVariant { name: "Operation", index }, s.skip(1)),
            ),
        },
{
    law_numbers_read(s);
}

/// A use is five bytes: the operand position, then the constraint.
pub proof fn law_use_bytes(at: ConstraintIndex)
    ensures
        ({
            let c = at.constraint_index;
            flat(ConstraintIndex::tokens(at)) == seq![
                at.operand_index,
                (c % 256) as u8,
                (c / 0x100 % 256) as u8,
                (c / 0x1_0000 % 256) as u8,
                (c / 0x100_0000) as u8,
            ]
        }),
        sizes_fit(ConstraintIndex::tokens(at)),
{
    let c = at.constraint_index;
    law_number_bytes(at.operand_index, c, 0, false, 0);
    law_pair_bytes::<u8, u32>(at.operand_index, c);
    assert(flat(ConstraintIndex::tokens(at)) =~= seq![
        at.operand_index,
        (c % 256) as u8,
        (c / 0x100 % 256) as u8,
        (c / 0x1_0000 % 256) as u8,
        (c / 0x100_0000) as u8,
    ]);
}

/// A key is thirteen bytes: the operation, the place of its shift sequence, and the ends of its
/// range.
pub proof fn law_key_bytes(key: Key)
    ensures
        flat(Key::tokens(key.deep_view())) == flat(Operation::tokens(key.operation)) + (flat(
            u32::tokens(key.dense_shift_idx),
        ) + (flat(u32::tokens(key.range.start)) + flat(u32::tokens(key.range.end)))),
        flat(Key::tokens(key.deep_view())).len() == 13,
        sizes_fit(Key::tokens(key.deep_view())),
{
    broadcast use group_format;

    law_operation_bytes(key.operation);
    law_pair_bytes::<u32, u32>(key.range.start, key.range.end);
    law_number_bytes(0, key.dense_shift_idx, 0, false, 0);
    law_number_bytes(0, key.range.start, 0, false, 0);
    law_number_bytes(0, key.range.end, 0, false, 0);
}

/// An encoding is the list of its shift sequences, the inner shift of each first.
pub proof fn law_encoding_bytes(encoding: DenseShiftEncoding)
    ensures
        encoding.deep_view().len() == encoding.seqs().len(),
        forall|i: int|
            0 <= i < encoding.seqs().len() ==> (#[trigger] encoding.deep_view()[i]) == (
                encoding.seqs()[i][0],
                encoding.seqs()[i][1],
            ),
        flat(DenseShiftEncoding::tokens(encoding.deep_view())) == flat(
            Vec::<(Shift, Shift)>::tokens(encoding.deep_view()),
        ),
        sizes_fit(DenseShiftEncoding::tokens(encoding.deep_view())) <==> sizes_fit(
            Vec::<(Shift, Shift)>::tokens(encoding.deep_view()),
        ),
{
}

/// A list of shift sequences is read as an encoding if each comes behind the one before it, by the
/// number of the outer shift and then by that of the inner.
pub proof fn law_encoding_read(s: Seq<u8>)
    ensures
        Vec::<(Shift, Shift)>::parse(s) matches Err(e) ==> DenseShiftEncoding::parse(s) == Err::<
            (Seq<(Shift, Shift)>, Seq<u8>),
            (SerializationError, Seq<u8>),
        >(e),
        Vec::<(Shift, Shift)>::parse(s) matches Ok((pairs, rest)) ==> DenseShiftEncoding::parse(s)
            == if forall|i: int, j: int|
            0 <= i < j < pairs.len() ==> 512 * (#[trigger] pairs[i]).1.index_model()
                + pairs[i].0.index_model() < 512 * (#[trigger] pairs[j]).1.index_model()
                + pairs[j].0.index_model() {
            Ok::<(Seq<(Shift, Shift)>, Seq<u8>), (SerializationError, Seq<u8>)>((pairs, rest))
        } else {
            Err((SerializationError::InvalidConstruction { name: "DenseShiftEncoding" }, rest))
        },
{
    Vec::<(Shift, Shift)>::law_canonical(s);
    if let Ok((pairs, rest)) = Vec::<(Shift, Shift)>::parse(s) {
        assert forall|i: int| 0 <= i < pairs.len() implies (#[trigger] pairs[i]).0.wf()
            && pairs[i].1.wf() by {
            assert(<(Shift, Shift)>::accepted(pairs[i]));
        }
    }
}

/// An encoding is well-formed, and a list of sequences can become one, if the shifts are in range
/// and each sequence comes behind the one before it, by the number of the outer shift and then by
/// that of the inner.
pub proof fn law_encoding_order(encoding: DenseShiftEncoding, pairs: Seq<(Shift, Shift)>)
    ensures
        encoding.wf() <==> {
            &&& forall|i: int|
                0 <= i < encoding.seqs().len() ==> (#[trigger] encoding.seqs()[i])[0].wf()
                    && encoding.seqs()[i][1].wf()
            &&& forall|i: int, j: int|
                0 <= i < j < encoding.seqs().len() ==> 512 * (
                #[trigger] encoding.seqs()[i])[1].index_model()
                    + encoding.seqs()[i][0].index_model() < 512 * (
                #[trigger] encoding.seqs()[j])[1].index_model()
                    + encoding.seqs()[j][0].index_model()
        },
        pairs_ascend(pairs) <==> {
            &&& forall|i: int|
                0 <= i < pairs.len() ==> (#[trigger] pairs[i]).0.wf() && pairs[i].1.wf()
            &&& forall|i: int, j: int|
                0 <= i < j < pairs.len() ==> 512 * (#[trigger] pairs[i]).1.index_model()
                    + pairs[i].0.index_model() < 512 * (#[trigger] pairs[j]).1.index_model()
                    + pairs[j].0.index_model()
        },
{
    if encoding.wf() {
        assert forall|i: int, j: int| 0 <= i < j < encoding.seqs().len() implies 512 * (
        #[trigger] encoding.seqs()[i])[1].index_model() + encoding.seqs()[i][0].index_model() < 512
            * (#[trigger] encoding.seqs()[j])[1].index_model()
            + encoding.seqs()[j][0].index_model() by {
            assert(seq_code_model(encoding.seqs()[i]) < seq_code_model(encoding.seqs()[j]));
        }
    }
}

/// A segment is its keys, its words' ranges after their number, its uses, and its encoding.
pub proof fn law_segment_bytes(segment: KeySegment)
    requires
        segment.key_ranges@.len() <= u32::MAX,
    ensures
        ({
            let m = segment.deep_view();
            &&& m.keys.len() == segment.keys@.len()
            &&& forall|k: int|
                0 <= k < m.keys.len() ==> #[trigger] m.keys[k] == segment.keys@[k].deep_view()
            &&& m.key_ranges.len() == segment.key_ranges@.len()
            &&& forall|w: int|
                0 <= w < m.key_ranges.len() ==> #[trigger] m.key_ranges[w] == (
                    segment.key_ranges@[w].start,
                    segment.key_ranges@[w].end,
                )
            &&& m.constraint_indices == segment.constraint_indices@
            &&& m.shift_seqs == segment.dense_shift_enc.deep_view()
            &&& flat(KeySegment::tokens(m)) == flat(Vec::<Key>::tokens(m.keys)) + (flat(
                u32::tokens(segment.key_ranges@.len() as u32),
            ) + (flat(items_tokens::<(u32, u32)>(m.key_ranges)) + (flat(
                Vec::<ConstraintIndex>::tokens(m.constraint_indices),
            ) + flat(DenseShiftEncoding::tokens(m.shift_seqs)))))
        }),
{
    broadcast use group_format;

}

/// A collection is its public half, then its hidden half.
pub proof fn law_collection_bytes(collection: KeyCollection)
    ensures
        flat(KeyCollection::tokens(collection.deep_view())) == flat(
            KeySegment::tokens(collection.public.deep_view()),
        ) + flat(KeySegment::tokens(collection.hidden.deep_view())),
{
    broadcast use group_format;

}

/// A key is refused for the first of its parts that is not read, and as that part is.
pub proof fn law_key_refused(
    operation: Operation,
    dense_shift_idx: u32,
    rest: Seq<u8>,
)
    requires
        Operation::accepted(operation),
        sizes_fit(Operation::tokens(operation)),
        u32::accepted(dense_shift_idx),
        sizes_fit(u32::tokens(dense_shift_idx)),
    ensures
        Operation::parse(rest) matches Err(e) ==> Key::parse(rest) == Err::<
            (KeyModel, Seq<u8>),
            (SerializationError, Seq<u8>),
        >(e),
        u32::parse(rest) matches Err(e) ==> Key::parse(flat(Operation::tokens(operation)) + rest)
            == Err::<
            (KeyModel, Seq<u8>),
            (SerializationError, Seq<u8>),
        >(e),
        <(u32, u32)>::parse(rest) matches Err(e) ==> Key::parse(flat(Operation::tokens(operation))
            + (flat(u32::tokens(dense_shift_idx)) + rest)) == Err::<
            (KeyModel, Seq<u8>),
            (SerializationError, Seq<u8>),
        >(e),
{
    Operation::law_round_trip(operation, rest);
    Operation::law_round_trip(operation, flat(u32::tokens(dense_shift_idx)) + rest);
    u32::law_round_trip(dense_shift_idx, rest);
}

/// A collection is refused for the first of its halves that is not read, and as that half is.
pub proof fn law_collection_refused(
    public: KeySegmentModel,
    rest: Seq<u8>,
)
    requires
        KeySegment::accepted(public),
        sizes_fit(KeySegment::tokens(public)),
    ensures
        KeySegment::parse(rest) matches Err(e) ==> KeyCollection::parse(rest) == Err::<
            (KeyCollectionModel, Seq<u8>),
            (SerializationError, Seq<u8>),
        >(e),
        KeySegment::parse(rest) matches Err(e) ==>
            KeyCollection::parse(flat(KeySegment::tokens(public)) + rest) == Err::<
            (KeyCollectionModel, Seq<u8>),
            (SerializationError, Seq<u8>),
        >(e),
{
    KeySegment::law_round_trip(public, rest);
}

/// A segment is refused for the first of its parts that is not read, and as that part is.
pub proof fn law_segment_refused(
    keys: Seq<KeyModel>,
    key_ranges: Seq<(u32, u32)>,
    constraint_indices: Seq<ConstraintIndex>,
    rest: Seq<u8>,
)
    requires
        key_ranges.len() <= u32::MAX,
        Vec::<Key>::accepted(keys),
        sizes_fit(Vec::<Key>::tokens(keys)),
        items_accepted::<(u32, u32)>(key_ranges),
        sizes_fit(items_tokens::<(u32, u32)>(key_ranges)),
        Vec::<ConstraintIndex>::accepted(constraint_indices),
        sizes_fit(Vec::<ConstraintIndex>::tokens(constraint_indices)),
        sizes_fit(u32::tokens(key_ranges.len() as u32)),
    ensures
        Vec::<Key>::parse(rest) matches Err(e) ==> KeySegment::parse(rest) == Err::<
            (KeySegmentModel, Seq<u8>),
            (SerializationError, Seq<u8>),
        >(e),
        u32::parse(rest) matches Err(e) ==> KeySegment::parse(flat(Vec::<Key>::tokens(keys)) + rest)
            == Err::<
            (KeySegmentModel, Seq<u8>),
            (SerializationError, Seq<u8>),
        >(e),
        parse_items::<(u32, u32)>(rest, key_ranges.len()) matches Err(e) ==>
            KeySegment::parse(flat(Vec::<Key>::tokens(keys))
            + (flat(u32::tokens(key_ranges.len() as u32)) + rest)) == Err::<
            (KeySegmentModel, Seq<u8>),
            (SerializationError, Seq<u8>),
        >(e),
        Vec::<ConstraintIndex>::parse(rest) matches Err(e) ==>
            KeySegment::parse(flat(Vec::<Key>::tokens(keys))
            + (flat(u32::tokens(key_ranges.len() as u32)) + (flat(items_tokens::<(u32,
            u32)>(key_ranges)) + rest))) == Err::<
            (KeySegmentModel, Seq<u8>),
            (SerializationError, Seq<u8>),
        >(e),
        DenseShiftEncoding::parse(rest) matches Err(e) ==>
            KeySegment::parse(flat(Vec::<Key>::tokens(keys))
            + (flat(u32::tokens(key_ranges.len() as u32)) + (flat(items_tokens::<(u32,
            u32)>(key_ranges)) + (flat(Vec::<ConstraintIndex>::tokens(constraint_indices))
            + rest)))) == Err::<
            (KeySegmentModel, Seq<u8>),
            (SerializationError, Seq<u8>),
        >(e),
{
    Vec::<Key>::law_round_trip(keys, rest);
    Vec::<Key>::law_round_trip(keys, flat(u32::tokens(key_ranges.len() as u32)) + rest);
    u32::law_round_trip(key_ranges.len() as u32, rest);
    Vec::<Key>::law_round_trip(keys, flat(u32::tokens(key_ranges.len() as u32))
        + (flat(items_tokens::<(u32, u32)>(key_ranges)) + rest));
    u32::law_round_trip(key_ranges.len() as u32, flat(items_tokens::<(u32, u32)>(key_ranges))
        + rest);
    lemma_items_round_trip::<(u32, u32)>(key_ranges, rest);
    Vec::<Key>::law_round_trip(keys, flat(u32::tokens(key_ranges.len() as u32))
        + (flat(items_tokens::<(u32, u32)>(key_ranges))
        + (flat(Vec::<ConstraintIndex>::tokens(constraint_indices)) + rest)));
    u32::law_round_trip(key_ranges.len() as u32, flat(items_tokens::<(u32, u32)>(key_ranges))
        + (flat(Vec::<ConstraintIndex>::tokens(constraint_indices)) + rest));
    lemma_items_round_trip::<(u32, u32)>(key_ranges,
        flat(Vec::<ConstraintIndex>::tokens(constraint_indices)) + rest);
    Vec::<ConstraintIndex>::law_round_trip(constraint_indices, rest);
}

} // verus!
