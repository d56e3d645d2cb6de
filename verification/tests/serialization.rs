//! The byte format of values, and the validation of constraint systems.

use binius::constraint_system::validate::ConstraintSystemError;
use binius::constraint_system::{
    AndConstraint, BmulConstraint, ConstraintSystem, ImulConstraint, Shift, ShiftVariant,
    ShiftedValueIndex, ValueIndex, ZeroConstraint,
};
use binius::serialization::format::{DeserializeBytes, SerializationError, SerializeBytes};

fn bytes_of<T: SerializeBytes + ?Sized>(v: &T) -> Vec<u8> {
    let mut out = Vec::new();
    v.serialize(&mut out).unwrap();
    out
}

#[test]
fn numbers_are_little_endian() {
    assert_eq!(bytes_of(&0x12u8), [0x12]);
    assert_eq!(bytes_of(&0x1234_5678u32), [0x78, 0x56, 0x34, 0x12]);
    assert_eq!(
        bytes_of(&0x0102_0304_0506_0708u64),
        [8, 7, 6, 5, 4, 3, 2, 1]
    );
    assert_eq!(bytes_of(&0x0102usize), [2, 1, 0, 0]);
    let mut buf: &[u8] = &[0x78, 0x56, 0x34, 0x12, 9];
    assert_eq!(u32::deserialize(&mut buf), Ok(0x1234_5678));
    assert_eq!(buf, [9]);
    let mut buf: &[u8] = &[8, 7, 6, 5, 4, 3, 2, 1];
    assert_eq!(u64::deserialize(&mut buf), Ok(0x0102_0304_0506_0708));
    let mut buf: &[u8] = &[2, 1, 0, 0];
    assert_eq!(usize::deserialize(&mut buf), Ok(0x0102));
    let mut buf: &[u8] = &[5, 6];
    assert_eq!(u8::deserialize(&mut buf), Ok(5));
    assert_eq!(buf, [6]);
}

#[test]
fn a_short_buffer_is_not_read_from() {
    let mut buf: &[u8] = &[1, 2, 3];
    assert_eq!(
        u32::deserialize(&mut buf),
        Err(SerializationError::NotEnoughData)
    );
    assert_eq!(buf, [1, 2, 3]);
    assert_eq!(
        u64::deserialize(&mut buf),
        Err(SerializationError::NotEnoughData)
    );
    let mut buf: &[u8] = &[];
    assert_eq!(
        u8::deserialize(&mut buf),
        Err(SerializationError::NotEnoughData)
    );
}

#[test]
fn a_flag_is_zero_or_one() {
    assert_eq!(bytes_of(&true), [1]);
    assert_eq!(bytes_of(&false), [0]);
    assert_eq!(bool::deserialize(&mut &[1u8][..]), Ok(true));
    assert_eq!(bool::deserialize(&mut &[0u8][..]), Ok(false));
    assert_eq!(
        bool::deserialize(&mut &[2u8][..]),
        Err(SerializationError::UnknownEnumVariant {
            name: "bool",
            index: 2
        })
    );
}

#[test]
fn text_is_written_after_its_length_in_bytes() {
    assert_eq!(bytes_of("né"), [3, 0, 0, 0, b'n', 0xc3, 0xa9]);
    let mut buf: &[u8] = &[3, 0, 0, 0, b'n', 0xc3, 0xa9, 7];
    assert_eq!(String::deserialize(&mut buf), Ok(String::from("né")));
    assert_eq!(buf, [7]);
    let mut buf: &[u8] = &[2, 0, 0, 0, b'n', 0xc3, 0xa9];
    assert_eq!(
        String::deserialize(&mut buf),
        Err(SerializationError::FromUtf8Error)
    );
    let mut buf: &[u8] = &[4, 0, 0, 0, b'n'];
    assert_eq!(
        String::deserialize(&mut buf),
        Err(SerializationError::NotEnoughData)
    );
}

#[test]
fn a_list_is_written_after_its_length() {
    let list: Vec<u32> = vec![1, 2];
    assert_eq!(bytes_of(&list), [2, 0, 0, 0, 1, 0, 0, 0, 2, 0, 0, 0]);
    let bytes = bytes_of(&list);
    assert_eq!(Vec::<u32>::deserialize(&mut bytes.as_slice()), Ok(list));
    assert_eq!(
        Vec::<u32>::deserialize(&mut &bytes[..bytes.len() - 1]),
        Err(SerializationError::NotEnoughData)
    );
    let pairs: Vec<(u8, u64)> = vec![(3, 4), (5, 6)];
    let bytes = bytes_of(&pairs);
    assert_eq!(
        Vec::<(u8, u64)>::deserialize(&mut bytes.as_slice()),
        Ok(pairs)
    );
}

fn plain(value_index: ValueIndex) -> Vec<ShiftedValueIndex> {
    vec![ShiftedValueIndex::plain(value_index)]
}

fn every_constraint() -> ConstraintSystem {
    let c = ValueIndex::constant(1);
    let i = ValueIndex::inout(0);
    let p = ValueIndex::private(2);
    ConstraintSystem {
        constants: vec![7, u64::MAX],
        n_inout: 1,
        n_private: 3,
        zero_constraints: vec![ZeroConstraint([plain(c)])],
        and_constraints: vec![AndConstraint([
            plain(c),
            Vec::new(),
            vec![ShiftedValueIndex::new(
                p,
                [Shift::new(ShiftVariant::Rotr32, 31), Shift::sll(63)],
            )],
        ])],
        imul_constraints: vec![ImulConstraint([plain(c), plain(i), plain(p), plain(p)])],
        bmul_constraints: vec![BmulConstraint([
            plain(c),
            plain(i),
            plain(p),
            plain(p),
            plain(i),
            plain(c),
        ])],
    }
}

#[test]
fn a_constraint_system_is_read_back_as_it_was_written() {
    let cs = every_constraint();
    let mut bytes = bytes_of(&cs);
    bytes.push(42);
    let mut buf = bytes.as_slice();
    let read = ConstraintSystem::deserialize(&mut buf).unwrap();
    assert_eq!(buf, [42]);
    assert_eq!(read.constants, cs.constants);
    assert_eq!(read.n_inout, cs.n_inout);
    assert_eq!(read.n_private, cs.n_private);
    assert_eq!(read.zero_constraints[0].0, cs.zero_constraints[0].0);
    assert_eq!(read.and_constraints[0].0, cs.and_constraints[0].0);
    assert_eq!(read.imul_constraints[0].0, cs.imul_constraints[0].0);
    assert_eq!(read.bmul_constraints[0].0, cs.bmul_constraints[0].0);
    assert_eq!(bytes_of(&read), bytes_of(&cs));
}

#[test]
fn a_constraint_system_of_another_version_is_refused() {
    let mut bytes = bytes_of(&every_constraint());
    bytes[0] = 2;
    assert_eq!(
        ConstraintSystem::deserialize(&mut bytes.as_slice()).unwrap_err(),
        SerializationError::InvalidConstruction {
            name: "ConstraintSystem::version"
        }
    );
}

#[test]
fn a_value_index_is_written_after_its_tag() {
    assert_eq!(bytes_of(&ValueIndex::constant(1)), [0, 1, 0, 0, 0]);
    assert_eq!(bytes_of(&ValueIndex::inout(2)), [1, 2, 0, 0, 0]);
    assert_eq!(bytes_of(&ValueIndex::private(3)), [2, 3, 0, 0, 0]);
    assert_eq!(bytes_of(&ValueIndex::scratch(4)), [3, 4, 0, 0, 0]);
    assert_eq!(
        ValueIndex::deserialize(&mut &[4u8, 0, 0, 0, 0][..]),
        Err(SerializationError::UnknownEnumVariant {
            name: "ValueIndex",
            index: 4
        })
    );
}

#[test]
fn validation_names_the_first_defect() {
    assert_eq!(every_constraint().validate(), Ok(()));
    let mut cs = every_constraint();
    cs.n_private = usize::MAX;
    assert_eq!(
        cs.validate(),
        Err(ConstraintSystemError::ValueVecTooLong)
    );
    let mut cs = every_constraint();
    cs.n_inout = 0;
    assert_eq!(
        cs.validate(),
        Err(ConstraintSystemError::InvalidTerm {
            constraint_type: "imul",
            constraint_index: 0,
            operand_index: 1,
            term_index: 0
        })
    );
    let mut cs = every_constraint();
    cs.bmul_constraints[0].0[5].push(ShiftedValueIndex::new(
        ValueIndex::constant(0),
        [
            Shift::identity(),
            Shift::new(ShiftVariant::Sll32, 32),
        ],
    ));
    assert_eq!(
        cs.validate(),
        Err(ConstraintSystemError::InvalidTerm {
            constraint_type: "bmul",
            constraint_index: 0,
            operand_index: 5,
            term_index: 1
        })
    );
}
