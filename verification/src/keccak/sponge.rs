//! The Keccak-256 sponge: its padding, its blocks, and what the circuit relates.

use vstd::prelude::*;

use crate::circuit::semantics::MSB_ONE;
use crate::keccak::function::keccak_f;

verus! {

/// The number of words of a digest.
pub const N_WORDS_PER_DIGEST: usize = 4;

/// The number of words of a state.
pub const N_WORDS_PER_STATE: usize = 25;

/// The number of bytes of a block.
pub const RATE_BYTES: usize = 136;

/// The number of words of a block.
pub const N_WORDS_PER_BLOCK: usize = 17;

/// A state, with the block of words that starts at `at`.
pub open spec fn with_block(state: Seq<u64>, words: Seq<u64>, at: int) -> Seq<u64> {
    Seq::new(
        25,
        |i: int|
            if i < 17 {
                state[i] ^ words[at + i]
            } else {
                state[i]
            },
    )
}

/// The state after the first `n` blocks of words.
pub open spec fn sponge(words: Seq<u64>, n: int) -> Seq<u64>
    decreases n,
{
    if n <= 0 {
        Seq::new(25, |i: int| 0u64)
    } else {
        keccak_f(with_block(sponge(words, n - 1), words, 17 * (n - 1)))
    }
}

/// The bytes of a padded message: the message, then a one, then zeros; the last byte of the block
/// in which the one stands has its highest bit set.
pub open spec fn padded_byte(message: Seq<u8>, i: int) -> u8 {
    let byte = if i < message.len() {
        message[i]
    } else if i == message.len() {
        1u8
    } else {
        0u8
    };
    if i == 136 * (message.len() as int / 136) + 135 {
        byte | 0x80
    } else {
        byte
    }
}

/// The word of eight bytes, the lowest first.
pub open spec fn word_of(b0: u8, b1: u8, b2: u8, b3: u8, b4: u8, b5: u8, b6: u8, b7: u8) -> u64 {
    (b0 as u64) | ((b1 as u64) << 8) | ((b2 as u64) << 16) | ((b3 as u64) << 24) | ((b4 as u64)
        << 32) | ((b5 as u64) << 40) | ((b6 as u64) << 48) | ((b7 as u64) << 56)
}

/// The words of a padded message.
pub open spec fn padded_word(message: Seq<u8>, i: int) -> u64 {
    word_of(
        padded_byte(message, 8 * i),
        padded_byte(message, 8 * i + 1),
        padded_byte(message, 8 * i + 2),
        padded_byte(message, 8 * i + 3),
        padded_byte(message, 8 * i + 4),
        padded_byte(message, 8 * i + 5),
        padded_byte(message, 8 * i + 6),
        padded_byte(message, 8 * i + 7),
    )
}

/// The words of the first `n_blocks` blocks of a padded message.
pub open spec fn padded_words(message: Seq<u8>, n_blocks: int) -> Seq<u64> {
    Seq::new((17 * n_blocks) as nat, |i: int| padded_word(message, i))
}

/// Keccak-256: the four words of a message's digest.
pub open spec fn keccak_256(message: Seq<u8>) -> Seq<u64> {
    let n_blocks = message.len() as int / 136 + 1;
    sponge(padded_words(message, n_blocks), n_blocks).take(4)
}

/// The word of the message in which it ends: its bytes before the end, the one after them, and the
/// highest bit where the word is the last of its block.
pub open spec fn boundary_word(message: Seq<u64>, len: u64) -> u64 {
    let at = len as int / 8;
    let r = len % 8;
    let low = if at < message.len() {
        message[at] & (0x00FF_FFFF_FFFF_FFFFu64 >> ((7 - r) as u64 * 8))
    } else {
        0
    };
    (low ^ (1u64 << (r * 8))) ^ if at % 17 == 16 {
        MSB_ONE
    } else {
        0
    }
}

/// Whether the padded words before that in which the message ends are the message's.
pub open spec fn message_kept(len: u64, message: Seq<u64>, padded: Seq<u64>) -> bool {
    forall|i: int|
        0 <= i < message.len() && i < len as int / 8 ==> #[trigger] padded[i] == message[i]
}

/// Whether the padded words behind that in which the message ends are zero, but for the last of
/// each block.
pub open spec fn zero_filled(len: u64, padded: Seq<u64>) -> bool {
    forall|i: int|
        len as int / 8 < i < padded.len() && i % 17 != 16 ==> #[trigger] padded[i] == 0
}

/// Whether the last word of the block in which the message ends has the highest bit alone, where the
/// message ends in another word.
pub open spec fn delimited(len: u64, padded: Seq<u64>) -> bool {
    (len as int / 8) % 17 != 16 ==> padded[17 * (len as int / 136) + 16] == MSB_ONE
}

/// What the padding of a message asks of the padded words. Of the words behind the last block of
/// the message it asks less: they have no part in the digest.
pub open spec fn padding_holds(len: u64, message: Seq<u64>, padded: Seq<u64>) -> bool {
    &&& message_kept(len, message, padded)
    &&& padded[len as int / 8] == boundary_word(message, len)
    &&& zero_filled(len, padded)
    &&& delimited(len, padded)
}

/// What the circuit relates: a length in bytes that the message has room for, a padded form of that
/// many bytes of it, and the digest of the padded form.
pub open spec fn keccak_relation(
    len: u64,
    digest: Seq<u64>,
    message: Seq<u64>,
    padded: Seq<u64>,
) -> bool {
    &&& len <= 8 * message.len()
    &&& padding_holds(len, message, padded)
    &&& digest == sponge(padded, len as int / 136 + 1).take(4)
}

} // verus!
