//! The Keccak-256 circuit against an independent implementation of the hash.

use binius::circuit::builder::CircuitBuilder;
use binius::circuit::witness::WitnessFiller;
use binius::ir::Wire;
use binius::keccak::circuit::Keccak256;
use rand::rngs::StdRng;
use rand::{Rng, SeedableRng};
use sha3::Digest;

fn hash(message: &[u8]) -> [u8; 32] {
    let mut hasher = sha3::Keccak256::new();
    hasher.update(message);
    hasher.finalize().into()
}

fn random_message(len: usize, max_len: usize) -> Vec<u8> {
    let seed = ((len as u64) << 32) | (max_len as u64);
    let mut rng = StdRng::seed_from_u64(seed);
    let mut message = vec![0u8; len];
    rng.fill_bytes(&mut message);
    message
}

fn build(max_len: usize) -> (CircuitBuilder, Keccak256) {
    let mut b = CircuitBuilder::new();
    let len = b.add_witness();
    let digest: [Wire; 4] = std::array::from_fn(|_| b.add_inout());
    let n_words = max_len.div_ceil(8);
    let message_wires = (0..n_words).map(|_| b.add_inout()).collect();
    let keccak = Keccak256::new(&mut b, len, digest, message_wires);
    (b, keccak)
}

fn populated(b: &CircuitBuilder, keccak: &Keccak256, message: &[u8]) -> WitnessFiller {
    let mut witness = b.new_witness_filler();
    keccak.populate_len_bytes(&mut witness, message.len());
    keccak.populate_message(&mut witness, message);
    keccak.populate_digest(&mut witness, hash(message));
    witness
}

fn check(len: usize, max_len: usize) {
    let message = random_message(len, max_len);
    let (b, keccak) = build(max_len);
    let mut witness = populated(&b, &keccak, &message);
    assert_eq!(b.populate_wire_witness(&mut witness), Ok(()));
    // The words of the digest are still the digest's.
    for (i, chunk) in hash(&message).chunks(8).enumerate() {
        assert_eq!(
            witness.get(keccak.digest[i]),
            u64::from_le_bytes(chunk.try_into().unwrap())
        );
    }
    // No other digest is accepted.
    let mut wrong = hash(&message);
    wrong[31] ^= 0x80;
    let mut witness = populated(&b, &keccak, &message);
    keccak.populate_digest(&mut witness, wrong);
    let failed = b.populate_wire_witness(&mut witness).unwrap_err();
    assert_eq!(failed.assertion, "claimed digest is correct");
}

#[test]
fn keccak_circuit_accepts_an_empty_message() {
    check(0, 100);
}

#[test]
fn keccak_circuit_accepts_a_single_byte() {
    check(1, 100);
}

#[test]
fn keccak_circuit_accepts_a_single_byte_in_two_blocks() {
    check(1, 144);
}

#[test]
fn keccak_circuit_accepts_one_byte_before_the_block_boundary() {
    check(135, 136);
}

#[test]
fn keccak_circuit_accepts_exactly_one_block() {
    check(136, 136);
}

#[test]
fn keccak_circuit_accepts_a_message_across_the_block_boundary() {
    check(137, 272);
}

#[test]
fn keccak_circuit_accepts_one_byte_before_two_blocks() {
    check(271, 272);
}

#[test]
fn keccak_circuit_accepts_exactly_two_blocks() {
    check(272, 272);
}

#[test]
fn keccak_circuit_accepts_every_length_around_a_word() {
    let (b, keccak) = build(144);
    for len in 120..=144 {
        let message = random_message(len, 144);
        let mut witness = populated(&b, &keccak, &message);
        assert_eq!(b.populate_wire_witness(&mut witness), Ok(()), "{len}");
    }
}

#[test]
fn max_len_bytes_is_that_of_the_message_words() {
    let (_, keccak) = build(100);
    assert_eq!(keccak.max_len_bytes(), 104);
    assert_eq!(keccak.padded_message().len(), 17);
    let (_, keccak) = build(136);
    assert_eq!(keccak.max_len_bytes(), 136);
    assert_eq!(keccak.padded_message().len(), 34);
}

#[test]
fn a_length_beyond_the_maximum_is_refused() {
    let (b, keccak) = build(16);
    let message = random_message(16, 16);
    let mut witness = populated(&b, &keccak, &message);
    witness.set(keccak.len_bytes, 17);
    let failed = b.populate_wire_witness(&mut witness).unwrap_err();
    assert_eq!(failed.assertion, "len_check");
}

#[test]
fn a_wrong_length_is_refused() {
    let (b, keccak) = build(40);
    let message = random_message(20, 40);
    let mut witness = populated(&b, &keccak, &message);
    witness.set(keccak.len_bytes, 19);
    assert!(b.populate_wire_witness(&mut witness).is_err());
    let mut witness = populated(&b, &keccak, &message);
    witness.set(keccak.len_bytes, 21);
    assert!(b.populate_wire_witness(&mut witness).is_err());
}

#[test]
fn a_changed_message_is_refused() {
    let (b, keccak) = build(40);
    let message = random_message(20, 40);
    // A full word, and a byte of the word in which the message ends.
    for (word, bit) in [(0, 0), (1, 63), (2, 31)] {
        let mut witness = populated(&b, &keccak, &message);
        let value = witness.get(keccak.message[word]);
        witness.set(keccak.message[word], value ^ (1 << bit));
        assert!(b.populate_wire_witness(&mut witness).is_err());
    }
    // Behind the message nothing matters.
    for (word, bit) in [(2, 32), (3, 5), (4, 0)] {
        let mut witness = populated(&b, &keccak, &message);
        let value = witness.get(keccak.message[word]);
        witness.set(keccak.message[word], value ^ (1 << bit));
        assert_eq!(b.populate_wire_witness(&mut witness), Ok(()));
    }
}

#[test]
fn wrong_padding_is_refused() {
    let (b, keccak) = build(136);
    let message = random_message(20, 136);
    let padded = keccak.padded_message();
    for (word, expected) in [
        (0, "claimed digest is correct"),
        (2, "claimed digest is correct"),
        (5, "claimed digest is correct"),
        (16, "claimed digest is correct"),
        (20, "after-message padding"),
    ] {
        let mut witness = populated(&b, &keccak, &message);
        let value = witness.get(padded[word]);
        witness.set(padded[word], value ^ 1);
        let failed = b.populate_wire_witness(&mut witness).unwrap_err();
        assert_eq!(failed.assertion, expected);
    }
    // The last word of a block behind the message's is free.
    let mut witness = populated(&b, &keccak, &message);
    witness.set(padded[33], 77);
    assert_eq!(b.populate_wire_witness(&mut witness), Ok(()));
}

#[test]
fn populate_fills_words_in_byte_order() {
    let (b, keccak) = build(24);
    let mut witness = b.new_witness_filler();
    witness.set(keccak.message[2], 5);
    keccak.populate_len_bytes(&mut witness, 9);
    keccak.populate_message(&mut witness, &[1, 2, 3, 4, 5, 6, 7, 8, 9]);
    assert_eq!(witness.get(keccak.len_bytes), 9);
    assert_eq!(witness.get(keccak.message[0]), 0x0807_0605_0403_0201);
    assert_eq!(witness.get(keccak.message[1]), 9);
    // Words without a byte of the message stay as they are.
    assert_eq!(witness.get(keccak.message[2]), 5);
    let padded = keccak.padded_message();
    assert_eq!(witness.get(padded[0]), 0x0807_0605_0403_0201);
    assert_eq!(witness.get(padded[1]), 0x0109);
    assert_eq!(witness.get(padded[2]), 0);
    assert_eq!(witness.get(padded[16]), 0x8000_0000_0000_0000);
    let mut digest = [0u8; 32];
    digest[8] = 0xaa;
    digest[31] = 0x11;
    keccak.populate_digest(&mut witness, digest);
    assert_eq!(witness.get(keccak.digest[0]), 0);
    assert_eq!(witness.get(keccak.digest[1]), 0xaa);
    assert_eq!(witness.get(keccak.digest[3]), 0x1100_0000_0000_0000);
}
