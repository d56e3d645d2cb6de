//! Key collections: their shift encodings, their bytes, and the agreement of the two builders.

use binius::constraint_system::{
    AndConstraint, BmulConstraint, ConstraintSystem, ImulConstraint, InoutSegment, Operand, Shift,
    ShiftVariant, ShiftedValueIndex, ValueIndex, ZeroConstraint, SHIFT_COUNT,
};
use binius::key_collection::builder::{build_key_collection, PackedRef};
use binius::key_collection::collection::KeyCollection;
use binius::key_collection::dense_shift_encoding::DenseShiftEncoding;
use binius::key_collection::key::{ConstraintIndex, Operation};
use binius::key_collection::key_segment::KeySegment;
use binius::key_collection::reference::build_key_collection_reference;
use binius::serialization::format::{DeserializeBytes, SerializationError, SerializeBytes};
use rand::rngs::StdRng;
use rand::{RngExt, SeedableRng};

/// A shift sequence carrying one shift, which the canonical form places in the inner slot.
fn single(shift: Shift) -> [Shift; 2] {
    [shift, Shift::identity()]
}

/// A constraint system with a handful of distinct shifts, differing between the two segments.
///
/// The public segment references `Sll(0)` and `Slr(3)`.
/// The hidden one references `Sll(0)`, `Sar(7)` and `Rotr(1)`.
/// Every outer slot is the identity, so the sequences sort by their inner shift alone.
fn shifted_constraint_system() -> ConstraintSystem {
    let public = ValueIndex::constant(1);
    let hidden = ValueIndex::private(1);
    ConstraintSystem {
        constants: vec![0; 4],
        n_inout: 0,
        n_private: 4,
        zero_constraints: Vec::new(),
        and_constraints: vec![AndConstraint([
            vec![
                ShiftedValueIndex::plain(public),
                ShiftedValueIndex::srl(public, 3),
            ],
            vec![ShiftedValueIndex::sar(hidden, 7)],
            vec![
                ShiftedValueIndex::rotr(hidden, 1),
                ShiftedValueIndex::plain(hidden),
            ],
        ])],
        imul_constraints: Vec::new(),
        bmul_constraints: Vec::new(),
    }
}

fn serialized(kc: &KeyCollection) -> Vec<u8> {
    let mut bytes = Vec::new();
    kc.serialize(&mut bytes).unwrap();
    bytes
}

#[test]
fn dense_shift_encoding_covers_the_sequences_its_segment_uses() {
    let key_collection = build_key_collection(&shifted_constraint_system(), InoutSegment::Public);

    let public_sequences = key_collection.public.dense_shift_enc.iter();
    assert_eq!(
        public_sequences[..],
        [single(Shift::identity()), single(Shift::srl(3))]
    );

    let hidden_sequences = key_collection.hidden.dense_shift_enc.iter();
    assert_eq!(
        hidden_sequences[..],
        [
            single(Shift::identity()),
            single(Shift::sar(7)),
            single(Shift::rotr(1)),
        ]
    );

    // A segment names far fewer sequences than the space of two shifts holds.
    assert!(key_collection.hidden.dense_shift_enc.len() < SHIFT_COUNT * SHIFT_COUNT);
}

#[test]
fn dense_shift_encoding_distinguishes_sequences_sharing_an_inner_shift() {
    // Two terms sharing an inner shift but differing outside must land on distinct indices.
    let hidden = ValueIndex::private(1);
    let cs = ConstraintSystem {
        constants: vec![0; 4],
        n_inout: 0,
        n_private: 4,
        zero_constraints: Vec::new(),
        and_constraints: vec![AndConstraint([
            vec![
                ShiftedValueIndex::new(hidden, [Shift::srl(3), Shift::sll(3)]),
                ShiftedValueIndex::new(hidden, [Shift::srl(3), Shift::sll(5)]),
                ShiftedValueIndex::srl(hidden, 3),
            ],
            Vec::new(),
            Vec::new(),
        ])],
        imul_constraints: Vec::new(),
        bmul_constraints: Vec::new(),
    };

    let key_collection = build_key_collection(&cs, InoutSegment::Public);
    let sequences = key_collection.hidden.dense_shift_enc.iter();
    assert_eq!(
        sequences[..],
        [
            single(Shift::srl(3)),
            [Shift::srl(3), Shift::sll(3)],
            [Shift::srl(3), Shift::sll(5)],
        ]
    );

    // The word's three keys therefore hold three distinct dense indices.
    let mut indices = key_collection
        .hidden
        .word_keys(1)
        .iter()
        .map(|key| key.dense_shift_idx)
        .collect::<Vec<_>>();
    indices.sort_unstable();
    assert_eq!(indices, [0, 1, 2]);
}

#[test]
fn keys_index_their_segments_dense_encoding() {
    let key_collection = build_key_collection(&shifted_constraint_system(), InoutSegment::Public);

    // The shift sequences a word's keys name, as its own segment's encoding recovers them.
    let word_sequences = |segment: &KeySegment, word: usize| {
        let mut sequences = segment
            .word_keys(word)
            .iter()
            .map(|key| segment.dense_shift_enc.iter()[key.dense_shift_idx as usize])
            .collect::<Vec<_>>();
        sequences.sort();
        sequences
    };

    // Value index 1 is the second public word; value index 5 the second hidden one.
    assert_eq!(
        word_sequences(&key_collection.public, 1),
        [single(Shift::identity()), single(Shift::srl(3))]
    );
    assert_eq!(
        word_sequences(&key_collection.hidden, 1),
        [
            single(Shift::identity()),
            single(Shift::sar(7)),
            single(Shift::rotr(1)),
        ]
    );
}

#[test]
fn dense_shift_encoding_survives_serialization() {
    let key_collection = build_key_collection(&shifted_constraint_system(), InoutSegment::Public);

    let buf = serialized(&key_collection);
    let deserialized = KeyCollection::deserialize(&mut buf.as_slice()).unwrap();

    for (segment, deserialized) in [
        (&key_collection.public, &deserialized.public),
        (&key_collection.hidden, &deserialized.hidden),
    ] {
        assert_eq!(
            segment.dense_shift_enc.iter(),
            deserialized.dense_shift_enc.iter()
        );
    }
}

#[test]
fn counting_sort_builder_matches_the_reference_on_the_shifted_system() {
    let cs = shifted_constraint_system();
    for inout in [InoutSegment::Public, InoutSegment::Hidden] {
        assert_eq!(
            serialized(&build_key_collection(&cs, inout)),
            serialized(&build_key_collection_reference(&cs, inout)),
        );
    }
}

/// A random system with every operation, multi-term operands, two-slot shifts, and a few
/// words (constants) referenced far more often than the rest: the shape that makes the
/// per-word key lists long and interleaved.
fn random_constraint_system(seed: u64, n_and: usize) -> ConstraintSystem {
    let mut rng = StdRng::seed_from_u64(seed);
    let n_const = 8usize;
    let n_inout = 6usize;
    let n_private = 4096usize;
    let variants = [
        ShiftVariant::Sll,
        ShiftVariant::Slr,
        ShiftVariant::Sar,
        ShiftVariant::Rotr,
        ShiftVariant::Sll32,
        ShiftVariant::Srl32,
        ShiftVariant::Sra32,
        ShiftVariant::Rotr32,
    ];
    let shift = |rng: &mut StdRng| -> Shift {
        if rng.random_bool(0.5) {
            return Shift::identity();
        }
        let variant = variants[rng.random_range(0..variants.len())];
        // 32-bit lanewise variants shift by less than 32.
        let bound = if variant.is_half_word() { 32 } else { 64 };
        Shift::new(variant, rng.random_range(1..bound))
    };
    let term = |rng: &mut StdRng| -> ShiftedValueIndex {
        // A quarter of all references land on the first constant, another quarter on a
        // handful of hot words; the rest spread over the whole vector.
        let value_index = match rng.random_range(0..4u8) {
            0 => ValueIndex::constant(0),
            1 => match rng.random_range(0..3u8) {
                0 => ValueIndex::constant(rng.random_range(0..n_const as u32)),
                1 => ValueIndex::inout(rng.random_range(0..n_inout as u32)),
                _ => ValueIndex::private(rng.random_range(0..8)),
            },
            _ => ValueIndex::private(rng.random_range(0..n_private as u32)),
        };
        ShiftedValueIndex::new(value_index, [shift(rng), shift(rng)])
    };
    let operand = |rng: &mut StdRng| -> Operand {
        (0..rng.random_range(1..=4)).map(|_| term(rng)).collect()
    };
    let operands = |rng: &mut StdRng, arity: usize| -> Vec<Operand> {
        (0..arity).map(|_| operand(rng)).collect()
    };
    let zero_constraints = (0..n_and / 8)
        .map(|_| ZeroConstraint(operands(&mut rng, 1).try_into().ok().unwrap()))
        .collect();
    let and_constraints = (0..n_and)
        .map(|_| AndConstraint(operands(&mut rng, 3).try_into().ok().unwrap()))
        .collect();
    let imul_constraints = (0..n_and / 16)
        .map(|_| ImulConstraint(operands(&mut rng, 4).try_into().ok().unwrap()))
        .collect();
    let bmul_constraints = (0..n_and / 4)
        .map(|_| BmulConstraint(operands(&mut rng, 6).try_into().ok().unwrap()))
        .collect();
    ConstraintSystem {
        constants: vec![0; n_const],
        n_inout,
        n_private,
        zero_constraints,
        and_constraints,
        imul_constraints,
        bmul_constraints,
    }
}

#[test]
fn counting_sort_builder_matches_the_reference_on_random_systems() {
    for (seed, n_and) in [(1u64, 64usize), (2, 1000), (3, 20_000)] {
        let cs = random_constraint_system(seed, n_and);
        for inout in [InoutSegment::Public, InoutSegment::Hidden] {
            let fast = build_key_collection(&cs, inout);
            let slow = build_key_collection_reference(&cs, inout);
            assert_eq!(
                fast.public.keys.len(),
                slow.public.keys.len(),
                "seed {seed}"
            );
            assert_eq!(
                fast.hidden.keys.len(),
                slow.hidden.keys.len(),
                "seed {seed}"
            );
            assert_eq!(
                serialized(&fast),
                serialized(&slow),
                "seed {seed} inout {inout:?}"
            );
        }
    }
}

#[test]
fn counting_sort_builder_handles_an_empty_system() {
    let cs = ConstraintSystem {
        constants: vec![0; 2],
        n_inout: 0,
        n_private: 4,
        zero_constraints: Vec::new(),
        and_constraints: Vec::new(),
        imul_constraints: Vec::new(),
        bmul_constraints: Vec::new(),
    };
    let kc = build_key_collection(&cs, InoutSegment::Public);
    assert_eq!(kc.public.keys.len(), 0);
    assert_eq!(kc.hidden.keys.len(), 0);
    assert_eq!(kc.public.key_ranges.len(), 2);
    assert_eq!(kc.hidden.key_ranges.len(), 4);
    assert_eq!(
        serialized(&kc),
        serialized(&build_key_collection_reference(
            &cs,
            InoutSegment::Public
        ))
    );
}

#[test]
fn inout_words_move_between_the_halves() {
    let mut cs = shifted_constraint_system();
    cs.n_inout = 3;
    let public = build_key_collection(&cs, InoutSegment::Public);
    assert_eq!(public.public.n_words(), 7);
    assert_eq!(public.hidden.n_words(), 4);
    let hidden = build_key_collection(&cs, InoutSegment::Hidden);
    assert_eq!(hidden.public.n_words(), 4);
    assert_eq!(hidden.hidden.n_words(), 7);
    // The private word keeps its keys: it is the second of its half, or the fifth.
    assert_eq!(public.hidden.word_keys(1).len(), 3);
    assert_eq!(hidden.hidden.word_keys(4).len(), 3);
    assert_eq!(hidden.hidden.word_keys(1).len(), 0);
}

#[test]
fn keys_hold_their_uses_in_walk_order() {
    let word = ValueIndex::private(0);
    let cs = ConstraintSystem {
        constants: Vec::new(),
        n_inout: 0,
        n_private: 1,
        zero_constraints: vec![ZeroConstraint([vec![ShiftedValueIndex::plain(word)]])],
        and_constraints: vec![
            AndConstraint([
                vec![ShiftedValueIndex::plain(word)],
                vec![ShiftedValueIndex::plain(word)],
                Vec::new(),
            ]),
            AndConstraint([
                vec![ShiftedValueIndex::plain(word)],
                vec![ShiftedValueIndex::srl(word, 1)],
                Vec::new(),
            ]),
        ],
        imul_constraints: Vec::new(),
        bmul_constraints: Vec::new(),
    };
    let kc = build_key_collection(&cs, InoutSegment::Public);
    let segment = &kc.hidden;
    let keys = segment.word_keys(0);
    assert_eq!(keys.len(), 3);
    assert_eq!(keys[0].operation, Operation::Zero);
    assert_eq!(keys[1].operation, Operation::BitwiseAnd);
    assert_eq!(keys[2].operation, Operation::BitwiseAnd);
    assert_eq!(keys[1].dense_shift_idx, 0);
    assert_eq!(keys[2].dense_shift_idx, 1);
    let uses = |k: usize| {
        segment.constraint_indices[keys[k].range.start as usize..keys[k].range.end as usize]
            .to_vec()
    };
    let at = |operand_index: u8, constraint_index: u32| ConstraintIndex {
        operand_index,
        constraint_index,
    };
    assert_eq!(uses(0), [at(0, 0)]);
    assert_eq!(uses(1), [at(0, 0), at(0, 1), at(1, 0)]);
    assert_eq!(uses(2), [at(1, 1)]);
    assert_eq!(segment.constraint_indices.len(), 5);
}

#[test]
fn a_key_collection_is_read_back_as_it_was_written() {
    let cs = random_constraint_system(7, 40);
    let kc = build_key_collection(&cs, InoutSegment::Hidden);
    let mut bytes = serialized(&kc);
    bytes.extend_from_slice(&[9, 9, 9]);
    let mut buf = bytes.as_slice();
    let read = KeyCollection::deserialize(&mut buf).unwrap();
    assert_eq!(buf, &[9, 9, 9]);
    assert_eq!(read.public.keys, kc.public.keys);
    assert_eq!(read.hidden.keys, kc.hidden.keys);
    assert_eq!(read.public.key_ranges, kc.public.key_ranges);
    assert_eq!(read.hidden.key_ranges, kc.hidden.key_ranges);
    assert_eq!(
        read.public.constraint_indices,
        kc.public.constraint_indices
    );
    assert_eq!(
        read.hidden.constraint_indices,
        kc.hidden.constraint_indices
    );
    assert_eq!(serialized(&read), serialized(&kc));
}

#[test]
fn the_bytes_of_a_segment_are_laid_out_part_by_part() {
    let kc = build_key_collection(&shifted_constraint_system(), InoutSegment::Public);
    let mut bytes = Vec::new();
    kc.public.serialize(&mut bytes).unwrap();
    let mut expected: Vec<u8> = Vec::new();
    // Two keys: an operation, a dense index, a range.
    expected.extend_from_slice(&2u32.to_le_bytes());
    for i in 0..2u32 {
        expected.push(1);
        expected.extend_from_slice(&i.to_le_bytes());
        expected.extend_from_slice(&i.to_le_bytes());
        expected.extend_from_slice(&(i + 1).to_le_bytes());
    }
    // Four word ranges, all keys in the second.
    expected.extend_from_slice(&4u32.to_le_bytes());
    for (start, end) in [(0u32, 0u32), (0, 2), (2, 2), (2, 2)] {
        expected.extend_from_slice(&start.to_le_bytes());
        expected.extend_from_slice(&end.to_le_bytes());
    }
    // Two uses, both of the first operand of the first constraint.
    expected.extend_from_slice(&2u32.to_le_bytes());
    for _ in 0..2 {
        expected.push(0);
        expected.extend_from_slice(&0u32.to_le_bytes());
    }
    // Two sequences: the identity, and a right shift by three under it.
    expected.extend_from_slice(&2u32.to_le_bytes());
    expected.extend_from_slice(&[0, 0, 0, 0]);
    expected.extend_from_slice(&[1, 3, 0, 0]);
    assert_eq!(bytes, expected);
}

#[test]
fn broken_key_bytes_are_refused() {
    let kc = build_key_collection(&shifted_constraint_system(), InoutSegment::Public);
    let mut bytes = Vec::new();
    kc.public.serialize(&mut bytes).unwrap();
    assert_eq!(
        KeySegment::deserialize(&mut &bytes[..bytes.len() - 1]).unwrap_err(),
        SerializationError::NotEnoughData
    );
    // The first key's operation.
    let mut wrong = bytes.clone();
    wrong[4] = 9;
    assert_eq!(
        KeySegment::deserialize(&mut wrong.as_slice()).unwrap_err(),
        SerializationError::UnknownEnumVariant {
            name: "Operation",
            index: 9
        }
    );
    // The last shift's variant, then its amount.
    let n = bytes.len();
    let mut wrong = bytes.clone();
    wrong[n - 2] = 8;
    assert_eq!(
        KeySegment::deserialize(&mut wrong.as_slice()).unwrap_err(),
        SerializationError::UnknownEnumVariant {
            name: "ShiftVariant",
            index: 8
        }
    );
    let mut wrong = bytes.clone();
    wrong[n - 1] = 64;
    assert_eq!(
        KeySegment::deserialize(&mut wrong.as_slice()).unwrap_err(),
        SerializationError::InvalidConstruction {
            name: "Shift::amount"
        }
    );
    // Twice the same sequence.
    let mut wrong = bytes;
    wrong[n - 4] = 0;
    wrong[n - 3] = 0;
    assert_eq!(
        KeySegment::deserialize(&mut wrong.as_slice()).unwrap_err(),
        SerializationError::InvalidConstruction {
            name: "DenseShiftEncoding"
        }
    );
}

#[test]
fn sequences_are_numbered_in_the_order_of_their_codes() {
    let a = [Shift::sll(5), Shift::identity()];
    let b = [Shift::identity(), Shift::sll(1)];
    let c = [Shift::rotr(63), Shift::identity()];
    let encoding = DenseShiftEncoding::new(&vec![b, c, a, c]);
    assert_eq!(encoding.iter()[..], [a, c, b]);
    assert_eq!(encoding.dense_idx(a), 0);
    assert_eq!(encoding.dense_idx(c), 1);
    assert_eq!(encoding.dense_idx(b), 2);
}

/// What the keys of a word say: the operation, the place of the sequence in all, and the uses.
fn word_view(segment: &KeySegment, index: usize) -> Vec<(Operation, Vec<ConstraintIndex>)> {
    segment
        .word_keys(index)
        .iter()
        .map(|key| {
            let uses = key.range.start as usize..key.range.end as usize;
            (key.operation, segment.constraint_indices[uses].to_vec())
        })
        .collect()
}

#[test]
fn a_word_has_the_same_keys_under_either_split() {
    for seed in 0..4 {
        let cs = random_constraint_system(seed, 64);
        let public = build_key_collection(&cs, InoutSegment::Public);
        let hidden = build_key_collection(&cs, InoutSegment::Hidden);
        let view = |kc: &KeyCollection, word: usize| {
            let n_public = kc.public.n_words();
            if word < n_public {
                word_view(&kc.public, word)
            } else {
                word_view(&kc.hidden, word - n_public)
            }
        };
        for word in 0..cs.value_vec_len() {
            assert_eq!(view(&public, word), view(&hidden, word));
        }
    }
}

#[test]
fn the_keys_of_the_words_make_up_all_keys() {
    let cs = random_constraint_system(3, 64);
    let kc = build_key_collection(&cs, InoutSegment::Public);
    for segment in [&kc.public, &kc.hidden] {
        let mut all = Vec::new();
        for word in 0..segment.n_words() {
            all.extend_from_slice(segment.word_keys(word));
        }
        assert_eq!(all, segment.keys);
    }
}

#[test]
fn packed_references_tell_their_key_and_their_use() {
    let a = Shift {
        variant: ShiftVariant::Slr,
        amount: 3,
    };
    let b = Shift {
        variant: ShiftVariant::Sar,
        amount: 7,
    };
    let code = |operation: Operation, seq: [Shift; 2], position: u8, constraint: u32| {
        let packed = PackedRef::new(operation, seq, position, constraint);
        assert_eq!(
            packed.constraint_index(),
            ConstraintIndex {
                operand_index: position,
                constraint_index: constraint,
            }
        );
        packed.key_code()
    };
    let one = code(Operation::BitwiseAnd, [a, b], 0, 0);
    assert_eq!(
        one,
        code(Operation::BitwiseAnd, [a, b], u8::MAX, u32::MAX)
    );
    assert!(one < 1 << 20);
    assert_ne!(one, code(Operation::BinMul, [a, b], 0, 0));
    assert_ne!(one, code(Operation::BitwiseAnd, [a, a], 0, 0));
    assert_ne!(one, code(Operation::BitwiseAnd, [b, b], 0, 0));
    assert_ne!(one, code(Operation::BitwiseAnd, [b, a], 0, 0));
}
