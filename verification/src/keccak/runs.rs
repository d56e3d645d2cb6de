//! Keccak-256 lane by lane and byte by byte: what a run of the permutation and of the sponge is.

use vstd::prelude::*;

use crate::circuit::builder::CircuitBuilder;
use crate::circuit::semantics::{rotl, val, vals};
use crate::keccak::circuit::{lemma_paths, Keccak256};
use crate::keccak::function::{
    chi, column, iota, keccak_f, moved_from, rho_pi, rounds, theta, ROTATIONS, ROUND_CONSTANTS,
};
use crate::keccak::laws::{
    byte_of, byte_or_zero, lemma_bytes_of_word, lemma_sponge_words, lemma_word_of_bytes,
    message_bytes, packed_word,
};
use crate::keccak::populate::{law_message_on_the_wires, packed_words};
use crate::keccak::sponge::{
    boundary_word, delimited, keccak_256, message_kept, padded_byte, padded_word, padded_words,
    sponge, with_block, zero_filled,
};

verus! {

/// A rotation by an amount below the width, in shifts.
proof fn lemma_rotl_in_shifts(x: u64, n: u32)
    requires
        n < 64,
    ensures
        rotl(x, n) == (x << n) | (x >> (((64 - n) % 64) as u32)),
{
    if n == 0 {
        assert(x == (x << 0u32) | (x >> 0u32)) by (bit_vector);
    }
}

/// Whatever list of states begins with a state and goes on, round by round, as said here, ends in
/// the permutation of the state. Lane `i` stands at `(x, y) = (i % 5, i / 5)`. In a round,
/// every lane is added the parities of the column before it and, turned by one, of that behind it;
/// the lane at `(x, y)` is turned by its amount and moved to `(y, 2x + 3y)`; every lane is added the
/// one two places on in its row where the next is zero; and the first lane is added the round's
/// constant.
pub proof fn law_permutation(
    s: Seq<u64>,
    states: Seq<Seq<u64>>,
    mixed: Seq<Seq<u64>>,
    moved: Seq<Seq<u64>>,
)
    requires
        states.len() == 25,
        mixed.len() == 24,
        moved.len() == 24,
        states[0] == s,
        forall|k: int| 0 <= k < 25 ==> (#[trigger] states[k]).len() == 25,
        forall|k: int| 0 <= k < 24 ==> (#[trigger] mixed[k]).len() == 25,
        forall|k: int| 0 <= k < 24 ==> (#[trigger] moved[k]).len() == 25,
        forall|k: int, i: int|
            0 <= k < 24 && 0 <= i < 25 ==> {
                let a = states[k];
                let p = (i % 5 + 4) % 5;
                let q = (i % 5 + 1) % 5;
                let before = a[p] ^ a[p + 5] ^ a[p + 10] ^ a[p + 15] ^ a[p + 20];
                let behind = a[q] ^ a[q + 5] ^ a[q + 10] ^ a[q + 15] ^ a[q + 20];
                #[trigger] mixed[k][i] == a[i] ^ (before ^ ((behind << 1u32) | (behind >> 63u32)))
            },
        forall|k: int, i: int|
            0 <= k < 24 && 0 <= i < 25 ==> {
                let v = #[trigger] mixed[k][i];
                let n = ROTATIONS[i];
                moved[k][i / 5 + 5 * ((2 * (i % 5) + 3 * (i / 5)) % 5)] == (v << n) | (v >> (((64
                    - n) % 64) as u32))
            },
        forall|k: int, i: int|
            0 < k < 25 && 0 <= i < 25 ==> {
                let b = moved[k - 1];
                let row = 5 * (i / 5);
                #[trigger] states[k][i] == b[i] ^ (!b[row + (i % 5 + 1) % 5] & b[row + (i % 5 + 2)
                    % 5]) ^ (if i == 0 {
                    ROUND_CONSTANTS[k - 1]
                } else {
                    0
                })
            },
    ensures
        keccak_f(s) == states[24],
{
    reveal(keccak_f);
    lemma_rounds(s, states, mixed, moved, 24);
}

proof fn lemma_rounds(
    s: Seq<u64>,
    states: Seq<Seq<u64>>,
    mixed: Seq<Seq<u64>>,
    moved: Seq<Seq<u64>>,
    n: int,
)
    requires
        0 <= n <= 24,
        states.len() == 25,
        mixed.len() == 24,
        moved.len() == 24,
        states[0] == s,
        forall|k: int| 0 <= k < 25 ==> (#[trigger] states[k]).len() == 25,
        forall|k: int| 0 <= k < 24 ==> (#[trigger] mixed[k]).len() == 25,
        forall|k: int| 0 <= k < 24 ==> (#[trigger] moved[k]).len() == 25,
        forall|k: int, i: int|
            0 <= k < 24 && 0 <= i < 25 ==> {
                let a = states[k];
                let p = (i % 5 + 4) % 5;
                let q = (i % 5 + 1) % 5;
                let before = a[p] ^ a[p + 5] ^ a[p + 10] ^ a[p + 15] ^ a[p + 20];
                let behind = a[q] ^ a[q + 5] ^ a[q + 10] ^ a[q + 15] ^ a[q + 20];
                #[trigger] mixed[k][i] == a[i] ^ (before ^ ((behind << 1u32) | (behind >> 63u32)))
            },
        forall|k: int, i: int|
            0 <= k < 24 && 0 <= i < 25 ==> {
                let v = #[trigger] mixed[k][i];
                let n = ROTATIONS[i];
                moved[k][i / 5 + 5 * ((2 * (i % 5) + 3 * (i / 5)) % 5)] == (v << n) | (v >> (((64
                    - n) % 64) as u32))
            },
        forall|k: int, i: int|
            0 < k < 25 && 0 <= i < 25 ==> {
                let b = moved[k - 1];
                let row = 5 * (i / 5);
                #[trigger] states[k][i] == b[i] ^ (!b[row + (i % 5 + 1) % 5] & b[row + (i % 5 + 2)
                    % 5]) ^ (if i == 0 {
                    ROUND_CONSTANTS[k - 1]
                } else {
                    0
                })
            },
    ensures
        rounds(s, n) == states[n],
    decreases n,
{
    if n > 0 {
        let k = n - 1;
        lemma_rounds(s, states, mixed, moved, k);
        lemma_theta_step(states[k], mixed[k]);
        lemma_rho_pi_step(mixed[k], moved[k]);
        lemma_chi_step(moved[k], states[n], ROUND_CONSTANTS[k]);
    }
}

proof fn lemma_theta_step(a: Seq<u64>, t: Seq<u64>)
    requires
        a.len() == 25,
        t.len() == 25,
        forall|i: int|
            0 <= i < 25 ==> {
                let p = (i % 5 + 4) % 5;
                let q = (i % 5 + 1) % 5;
                let before = a[p] ^ a[p + 5] ^ a[p + 10] ^ a[p + 15] ^ a[p + 20];
                let behind = a[q] ^ a[q + 5] ^ a[q + 10] ^ a[q + 15] ^ a[q + 20];
                #[trigger] t[i] == a[i] ^ (before ^ ((behind << 1u32) | (behind >> 63u32)))
            },
    ensures
        theta(a) == t,
{
    assert forall|i: int| 0 <= i < 25 implies theta(a)[i] == #[trigger] t[i] by {
        assert((i + 4) % 5 == (i % 5 + 4) % 5 && (i + 1) % 5 == (i % 5 + 1) % 5);
        lemma_rotl_in_shifts(column(a, (i + 1) % 5), 1);
    }
    assert(theta(a) =~= t);
}

proof fn lemma_rho_pi_step(t: Seq<u64>, b: Seq<u64>)
    requires
        t.len() == 25,
        b.len() == 25,
        forall|i: int|
            0 <= i < 25 ==> {
                let v = #[trigger] t[i];
                let n = ROTATIONS[i];
                b[i / 5 + 5 * ((2 * (i % 5) + 3 * (i / 5)) % 5)] == (v << n) | (v >> (((64 - n)
                    % 64) as u32))
            },
    ensures
        rho_pi(t) == b,
{
    assert forall|j: int| 0 <= j < 25 implies rho_pi(t)[j] == #[trigger] b[j] by {
        let i = moved_from(j);
        lemma_moved(j);
        lemma_rotations(i);
        let v = t[i];
        lemma_rotl_in_shifts(v, ROTATIONS[i]);
    }
    assert(rho_pi(t) =~= b);
}

proof fn lemma_chi_step(b: Seq<u64>, next: Seq<u64>, rc: u64)
    requires
        b.len() == 25,
        next.len() == 25,
        forall|i: int|
            0 <= i < 25 ==> {
                let row = 5 * (i / 5);
                #[trigger] next[i] == b[i] ^ (!b[row + (i % 5 + 1) % 5] & b[row + (i % 5 + 2) % 5])
                    ^ (if i == 0 {
                    rc
                } else {
                    0
                })
            },
    ensures
        iota(chi(b), rc) == next,
{
    assert forall|i: int| 0 <= i < 25 implies iota(chi(b), rc)[i] == #[trigger] next[i] by {
        assert((i + 1) % 5 == (i % 5 + 1) % 5 && (i + 2) % 5 == (i % 5 + 2) % 5);
        let c = chi(b)[i];
        assert(c ^ 0 == c) by (bit_vector);
    }
    assert(iota(chi(b), rc) =~= next);
}

/// A lane comes from where it is moved from.
proof fn lemma_moved(j: int)
    requires
        0 <= j < 25,
    ensures
        0 <= moved_from(j) < 25,
        ({
            let i = moved_from(j);
            i / 5 + 5 * ((2 * (i % 5) + 3 * (i / 5)) % 5) == j
        }),
{
}

/// Every lane is turned by less than its width.
proof fn lemma_rotations(i: int)
    requires
        0 <= i < 25,
    ensures
        ROTATIONS[i] < 64,
{
}

/// The sponge starts with zeros. Each block is added to the first seventeen lanes, and then the state
/// is permuted: block `n` of the words for every `n`.
pub proof fn law_sponge_step(words: Seq<u64>, n: int)
    requires
        0 <= n,
    ensures
        sponge(words, 0) == Seq::new(25, |i: int| 0u64),
        sponge(words, n + 1) == keccak_f(
            Seq::new(
                25,
                |i: int|
                    if i < 17 {
                        sponge(words, n)[i] ^ words[17 * n + i]
                    } else {
                        sponge(words, n)[i]
                    },
            ),
        ),
{
    assert(with_block(sponge(words, n), words, 17 * n) =~= Seq::new(
        25,
        |i: int|
            if i < 17 {
                sponge(words, n)[i] ^ words[17 * n + i]
            } else {
                sponge(words, n)[i]
            },
    ));
}

/// Whatever list of states begins with zeros and goes on, block by block of a padded message, ends
/// in a state of which the first four lanes are the message's Keccak-256 digest. The padded message
/// fills whole blocks of 136 bytes, the fewest that have room for one byte more than the message: it
/// is the message, then a one, then zeros, and its last byte has the highest bit set. Each eight of
/// its bytes are a word, the lowest first, and each seventeen words a block.
pub proof fn law_keccak_256(
    message: Seq<u8>,
    padded: Seq<u8>,
    words: Seq<u64>,
    states: Seq<Seq<u64>>,
    n_blocks: int,
)
    requires
        136 * (n_blocks - 1) <= message.len() < 136 * n_blocks,
        padded.len() == 136 * n_blocks,
        forall|i: int|
            0 <= i < 136 * n_blocks - 1 ==> #[trigger] padded[i] == if i < message.len() {
                message[i]
            } else if i == message.len() {
                1
            } else {
                0
            },
        padded[136 * n_blocks - 1] == if message.len() == 136 * n_blocks - 1 {
            0x81u8
        } else {
            0x80u8
        },
        words.len() == 17 * n_blocks,
        forall|j: int|
            0 <= j < 136 * n_blocks ==> (words[j / 8] >> ((8 * (j % 8)) as u64)) & 0xff
                == #[trigger] padded[j],
        states.len() == n_blocks + 1,
        states[0] == Seq::new(25, |i: int| 0u64),
        forall|k: int|
            0 < k <= n_blocks ==> #[trigger] states[k] == keccak_f(
                Seq::new(
                    25,
                    |i: int|
                        if i < 17 {
                            states[k - 1][i] ^ words[17 * (k - 1) + i]
                        } else {
                            states[k - 1][i]
                        },
                ),
            ),
    ensures
        keccak_256(message) == states[n_blocks].take(4),
{
    let expected = padded_words(message, n_blocks);
    assert(message.len() as int / 136 + 1 == n_blocks);
    assert forall|i: int| 0 <= i < 17 * n_blocks implies #[trigger] words[i] == expected[i] by {
        let x = words[i];
        lemma_word_of_bytes(x);
        assert forall|t: int| 0 <= t < 8 implies #[trigger] byte_of(x, t) == padded_byte(
            message,
            8 * i + t,
        ) by {
            let j = 8 * i + t;
            assert(j / 8 == i && j % 8 == t);
            assert((words[j / 8] >> ((8 * (j % 8)) as u64)) & 0xff == padded[j]);
            lemma_padded_bytes(message, padded, n_blocks, j);
        }
    }
    lemma_sponge_words(words, expected, n_blocks);
    lemma_states(words, states, n_blocks);
}

/// The bytes of the padded message.
proof fn lemma_padded_bytes(message: Seq<u8>, padded: Seq<u8>, n_blocks: int, j: int)
    requires
        136 * (n_blocks - 1) <= message.len() < 136 * n_blocks,
        padded.len() == 136 * n_blocks,
        forall|i: int|
            0 <= i < 136 * n_blocks - 1 ==> #[trigger] padded[i] == if i < message.len() {
                message[i]
            } else if i == message.len() {
                1
            } else {
                0
            },
        padded[136 * n_blocks - 1] == if message.len() == 136 * n_blocks - 1 {
            0x81u8
        } else {
            0x80u8
        },
        0 <= j < 136 * n_blocks,
    ensures
        padded_byte(message, j) == padded[j],
{
    assert(message.len() as int / 136 == n_blocks - 1);
    assert(1u8 | 0x80 == 0x81 && 0u8 | 0x80 == 0x80) by (bit_vector);
}

proof fn lemma_states(words: Seq<u64>, states: Seq<Seq<u64>>, n: int)
    requires
        0 <= n < states.len(),
        states[0] == Seq::new(25, |i: int| 0u64),
        forall|k: int|
            0 < k < states.len() ==> #[trigger] states[k] == keccak_f(
                Seq::new(
                    25,
                    |i: int|
                        if i < 17 {
                            states[k - 1][i] ^ words[17 * (k - 1) + i]
                        } else {
                            states[k - 1][i]
                        },
                ),
            ),
    ensures
        sponge(words, n) == states[n],
    decreases n,
{
    if n > 0 {
        lemma_states(words, states, n - 1);
        law_sponge_step(words, n - 1);
    }
}

/// The bytes of a message given in words, and the words of one given in bytes: eight bytes to a
/// word, the lowest first, and zeros behind the last.
pub proof fn law_bytes_and_words(words: Seq<u64>, len: int, bytes: Seq<u8>, i: int, t: int)
    requires
        0 <= len,
        0 <= i,
        0 <= t < 8,
    ensures
        message_bytes(words, len).len() == len,
        8 * i + t < len ==> message_bytes(words, len)[8 * i + t] == (words[i] >> ((8 * t) as u64))
            & 0xff,
        8 * (packed_words(bytes).len() - 1) < bytes.len() <= 8 * packed_words(bytes).len(),
        i < packed_words(bytes).len() ==> (packed_words(bytes)[i] >> ((8 * t) as u64)) & 0xff
            == if 8 * i + t < bytes.len() {
            bytes[8 * i + t] as u64
        } else {
            0
        },
{
    if 8 * i + t < len {
        assert((8 * i + t) / 8 == i && (8 * i + t) % 8 == t);
        lemma_low_byte(words[i], (8 * t) as u64);
    }
    lemma_packed(bytes, i, t);
}

proof fn lemma_low_byte(x: u64, n: u64)
    ensures
        ((x >> n) & 0xff) as u8 == (x >> n) & 0xff,
{
    let y = x >> n;
    assert((y & 0xff) as u8 == y & 0xff) by (bit_vector);
}

proof fn lemma_packed(bytes: Seq<u8>, i: int, t: int)
    requires
        0 <= i,
        0 <= t < 8,
    ensures
        (packed_word(bytes, i) >> ((8 * t) as u64)) & 0xff == byte_or_zero(bytes, 8 * i + t),
{
    lemma_bytes_of_word(
        byte_or_zero(bytes, 8 * i),
        byte_or_zero(bytes, 8 * i + 1),
        byte_or_zero(bytes, 8 * i + 2),
        byte_or_zero(bytes, 8 * i + 3),
        byte_or_zero(bytes, 8 * i + 4),
        byte_or_zero(bytes, 8 * i + 5),
        byte_or_zero(bytes, 8 * i + 6),
        byte_or_zero(bytes, 8 * i + 7),
    );
    lemma_low_byte(packed_word(bytes, i), (8 * t) as u64);
}

/// Under an assignment that follows the gates, and in which the length of a message that fits, its
/// bytes and those of its padding stand on the wires, what the circuit added to a builder holds with
/// the Keccak-256 digest of the message on the wires of the digest, and with nothing else there.
pub proof fn law_true_digest_is_accepted(
    keccak: Keccak256,
    before: CircuitBuilder,
    after: CircuitBuilder,
    w: Seq<u64>,
    message: Seq<u8>,
)
    requires
        keccak.wf(),
        keccak.added_to(before, after),
        after.computed(w),
        message.len() <= 8 * keccak.message@.len(),
        w[keccak.len_bytes.index as int] == message.len(),
        forall|j: int|
            0 <= j && 8 * (j / 8) < message.len() ==> (w[keccak.message@[j / 8].index as int] >> ((8
                * (j % 8)) as u64)) & 0xff == #[trigger] byte_or_zero(message, j),
        forall|j: int|
            0 <= j < 8 * keccak.padded_message@.len() ==> (w[keccak.padded_message@[j
                / 8].index as int] >> ((8 * (j % 8)) as u64)) & 0xff == #[trigger] padded_byte(
                message,
                j,
            ),
    ensures
        after.adds(before, w) <==> forall|i: int|
            0 <= i < 4 ==> w[(#[trigger] keccak.digest@[i]).index as int] == keccak_256(message)[i],
{
    assert forall|i: int| 0 <= i && 8 * i < message.len() implies val(
        w,
        #[trigger] keccak.message@[i],
    ) == packed_word(message, i) by {
        let x = val(w, keccak.message@[i]);
        lemma_word_of_bytes(x);
        assert forall|t: int| 0 <= t < 8 implies #[trigger] byte_of(x, t) == byte_or_zero(
            message,
            8 * i + t,
        ) by {
            let j = 8 * i + t;
            assert(j / 8 == i && j % 8 == t);
            assert(byte_or_zero(message, j) == byte_or_zero(message, j));
        }
    }
    let padded = vals(w, keccak.padded_message@);
    assert(padded =~= padded_words(message, keccak.n_blocks as int)) by {
        assert forall|i: int| 0 <= i < padded.len() implies #[trigger] padded[i] == padded_word(
            message,
            i,
        ) by {
            let x = padded[i];
            lemma_word_of_bytes(x);
            assert forall|t: int| 0 <= t < 8 implies #[trigger] byte_of(x, t) == padded_byte(
                message,
                8 * i + t,
            ) by {
                let j = 8 * i + t;
                assert(j / 8 == i && j % 8 == t);
                assert(padded_byte(message, j) == padded_byte(message, j));
            }
        }
    }
    law_message_on_the_wires(keccak, w, message);
    let digest = vals(w, keccak.digest@);
    law_digest_length(message);
    if forall|i: int|
        0 <= i < 4 ==> w[(#[trigger] keccak.digest@[i]).index as int] == keccak_256(message)[i] {
        assert forall|i: int| 0 <= i < 4 implies #[trigger] digest[i] == keccak_256(message)[i] by {
            assert(digest[i] == w[keccak.digest@[i].index as int]);
        }
        assert(digest =~= keccak_256(message));
    }
    if digest == keccak_256(message) {
        assert forall|i: int| 0 <= i < 4 implies w[(
        #[trigger] keccak.digest@[i]).index as int] == keccak_256(message)[i] by {
            assert(digest[i] == w[keccak.digest@[i].index as int]);
        }
    }
}

/// A byte of a padded message: the message's, or a one behind it, or a zero; with the highest bit
/// where it is the last of the block that the one stands in. And a byte of a message, or a zero
/// behind it.
pub proof fn law_padding(message: Seq<u8>, i: int)
    requires
        0 <= i,
    ensures
        ({
            let last = i % 136 == 135 && i / 136 == message.len() as int / 136;
            &&& i < message.len() && !last ==> padded_byte(message, i) == message[i]
            &&& i == message.len() && !last ==> padded_byte(message, i) == 1
            &&& i == message.len() && last ==> padded_byte(message, i) == 0x81
            &&& i > message.len() && last ==> padded_byte(message, i) == 0x80
            &&& i > message.len() && !last ==> padded_byte(message, i) == 0
            &&& i < message.len() ==> !last
        }),
        byte_or_zero(message, i) == if i < message.len() {
            message[i]
        } else {
            0
        },
{
    assert(1u8 | 0x80 == 0x81 && 0u8 | 0x80 == 0x80) by (bit_vector);
}

/// A digest has four words.
pub proof fn law_digest_length(message: Seq<u8>)
    ensures
        keccak_256(message).len() == 4,
{
    let n_blocks = message.len() as int / 136 + 1;
    let words = padded_words(message, n_blocks);
    law_sponge_step(words, n_blocks - 1);
    lemma_keccak_f_len(
        Seq::new(
            25,
            |i: int|
                if i < 17 {
                    sponge(words, n_blocks - 1)[i] ^ words[17 * (n_blocks - 1) + i]
                } else {
                    sponge(words, n_blocks - 1)[i]
                },
        ),
    );
}

proof fn lemma_keccak_f_len(s: Seq<u64>)
    requires
        s.len() == 25,
    ensures
        keccak_f(s).len() == 25,
{
    reveal(keccak_f);
}

/// Each part of what the circuit asserts is reported under its own path. Where the length fits: the
/// digest; the word in which the message ends; the words before it; the zeros behind it; and the
/// last word of its block. The length is, whether it fits or not.
pub proof fn law_paths(
    keccak: Keccak256,
    before: CircuitBuilder,
    after: CircuitBuilder,
    w: Seq<u64>,
)
    requires
        keccak.wf(),
        keccak.added_to(before, after),
        after.computed(w),
    ensures
        ({
            let len = w[keccak.len_bytes.index as int];
            let at = len as int / 8;
            let r = len % 8;
            let m = keccak.message@;
            let p = keccak.padded_message@;
            &&& after.adds_under(before, "len_check"@, w) <==> len <= 8 * m.len()
            &&& len <= 8 * m.len() ==> {
                &&& after.adds_under(before, "full"@, w) <==> forall|i: int|
                    0 <= i < m.len() && i < at ==> w[(#[trigger] p[i]).index as int]
                        == w[m[i].index as int]
                &&& after.adds_under(before, "after-message padding"@, w) <==> forall|i: int|
                    at < i < p.len() && i % 17 != 16 ==> w[(#[trigger] p[i]).index as int] == 0
                &&& after.adds_under(before, "delim"@, w) <==> (at % 17 != 16 ==> w[p[17 * (
                len as int / 136) + 16].index as int] == 0x8000_0000_0000_0000)
                &&& after.adds_under(before, "expected partial"@, w) <==> w[p[at].index as int]
                    == ((
                if at < m.len() {
                    w[m[at].index as int] & (0x00FF_FFFF_FFFF_FFFFu64 >> ((7 - r) as u64 * 8))
                } else {
                    0
                }) ^ (1u64 << (r * 8))) ^ (if at % 17 == 16 {
                    0x8000_0000_0000_0000
                } else {
                    0
                })
                &&& after.adds_under(before, "claimed digest is correct"@, w) <==> vals(
                    w,
                    keccak.digest@,
                ) == sponge(vals(w, p), len as int / 136 + 1).take(4)
            }
        }),
{
    lemma_paths();
    let len = val(w, keccak.len_bytes);
    let message = vals(w, keccak.message@);
    let padded = vals(w, keccak.padded_message@);
    let m = keccak.message@;
    let p = keccak.padded_message@;
    assert(after.adds_under(before, "len_check"@, w) <==> keccak.accepts_under("len_check"@, w));
    if len <= 8 * m.len() {
        let at = len as int / 8;
        assert forall|i: int| 0 <= i < p.len() implies w[(#[trigger] p[i]).index as int]
            == padded[i] by {}
        assert forall|i: int| 0 <= i < m.len() implies w[(#[trigger] m[i]).index as int]
            == message[i] by {}
        assert(at < p.len() && 17 * (len as int / 136) + 16 < p.len());
        assert(after.adds_under(before, "full"@, w) <==> message_kept(len, message, padded));
        assert(message_kept(len, message, padded) <==> forall|i: int|
            0 <= i < m.len() && i < at ==> w[(#[trigger] p[i]).index as int]
                == w[m[i].index as int]) by {
            if message_kept(len, message, padded) {
                assert forall|i: int| 0 <= i < m.len() && i < at implies w[(
                #[trigger] p[i]).index as int] == w[m[i].index as int] by {
                    assert(padded[i] == message[i]);
                }
            } else {
                let i = choose|i: int|
                    0 <= i < message.len() && i < at && #[trigger] padded[i] != message[i];
                assert(w[p[i].index as int] != w[m[i].index as int]);
            }
        }
        assert(zero_filled(len, padded) <==> forall|i: int|
            at < i < p.len() && i % 17 != 16 ==> w[(#[trigger] p[i]).index as int] == 0) by {
            if zero_filled(len, padded) {
                assert forall|i: int| at < i < p.len() && i % 17 != 16 implies w[(
                #[trigger] p[i]).index as int] == 0 by {
                    assert(padded[i] == 0);
                }
            } else {
                let i = choose|i: int|
                    at < i < padded.len() && i % 17 != 16 && #[trigger] padded[i] != 0;
                assert(w[p[i].index as int] != 0);
            }
        }
        assert(after.adds_under(before, "after-message padding"@, w) <==> zero_filled(len, padded));
        assert(after.adds_under(before, "delim"@, w) <==> delimited(len, padded));
        assert(after.adds_under(before, "expected partial"@, w) <==> padded[at] == boundary_word(
            message,
            len,
        ));
        assert(after.adds_under(before, "claimed digest is correct"@, w)
            <==> keccak.accepts_under("claimed digest is correct"@, w));
    }
}

/// The words of a padded message hold its bytes, eight each and the lowest first, in every block.
pub proof fn law_padded_words(message: Seq<u8>, n_blocks: int, i: int, t: int)
    requires
        0 <= i < 17 * n_blocks,
        0 <= t < 8,
    ensures
        padded_words(message, n_blocks).len() == 17 * n_blocks,
        (padded_words(message, n_blocks)[i] >> ((8 * t) as u64)) & 0xff == padded_byte(
            message,
            8 * i + t,
        ),
{
    lemma_bytes_of_word(
        padded_byte(message, 8 * i),
        padded_byte(message, 8 * i + 1),
        padded_byte(message, 8 * i + 2),
        padded_byte(message, 8 * i + 3),
        padded_byte(message, 8 * i + 4),
        padded_byte(message, 8 * i + 5),
        padded_byte(message, 8 * i + 6),
        padded_byte(message, 8 * i + 7),
    );
    lemma_low_byte(padded_word(message, i), (8 * t) as u64);
}

/// The amounts by which lanes are turned: none for the first lane; and for the others, along the walk
/// from `(1, 0)` that goes from `(x, y)` to `(y, 2x + 3y)`, one for the first of them, and for each
/// further one as much more as its number in the walk, up to whole turns.
pub proof fn law_rotations(walk: Seq<int>, t: int)
    requires
        walk.len() == 24,
        walk[0] == 1,
        forall|t: int|
            0 < t < 24 ==> #[trigger] walk[t] == walk[t - 1] / 5 + 5 * ((2 * (walk[t - 1] % 5)
                + 3 * (
            walk[t - 1] / 5)) % 5),
        0 < t < 24,
    ensures
        ROTATIONS[0] == 0,
        ROTATIONS[1] == 1,
        0 < walk[t - 1] < 25,
        0 < walk[t] < 25,
        ROTATIONS[walk[t]] == (ROTATIONS[walk[t - 1]] + t + 1) % 64,
{
    assert(walk[0] == 1);
    assert(walk[1] == 10);
    assert(walk[2] == 7);
    assert(walk[3] == 11);
    assert(walk[4] == 17);
    assert(walk[5] == 18);
    assert(walk[6] == 3);
    assert(walk[7] == 5);
    assert(walk[8] == 16);
    assert(walk[9] == 8);
    assert(walk[10] == 21);
    assert(walk[11] == 24);
    assert(walk[12] == 4);
    assert(walk[13] == 15);
    assert(walk[14] == 23);
    assert(walk[15] == 19);
    assert(walk[16] == 13);
    assert(walk[17] == 12);
    assert(walk[18] == 2);
    assert(walk[19] == 20);
    assert(walk[20] == 14);
    assert(walk[21] == 22);
    assert(walk[22] == 9);
    assert(walk[23] == 6);
    if t == 1 {
        assert(ROTATIONS[10] == (ROTATIONS[1] + 2) % 64);
    } else if t == 2 {
        assert(ROTATIONS[7] == (ROTATIONS[10] + 3) % 64);
    } else if t == 3 {
        assert(ROTATIONS[11] == (ROTATIONS[7] + 4) % 64);
    } else if t == 4 {
        assert(ROTATIONS[17] == (ROTATIONS[11] + 5) % 64);
    } else if t == 5 {
        assert(ROTATIONS[18] == (ROTATIONS[17] + 6) % 64);
    } else if t == 6 {
        assert(ROTATIONS[3] == (ROTATIONS[18] + 7) % 64);
    } else if t == 7 {
        assert(ROTATIONS[5] == (ROTATIONS[3] + 8) % 64);
    } else if t == 8 {
        assert(ROTATIONS[16] == (ROTATIONS[5] + 9) % 64);
    } else if t == 9 {
        assert(ROTATIONS[8] == (ROTATIONS[16] + 10) % 64);
    } else if t == 10 {
        assert(ROTATIONS[21] == (ROTATIONS[8] + 11) % 64);
    } else if t == 11 {
        assert(ROTATIONS[24] == (ROTATIONS[21] + 12) % 64);
    } else if t == 12 {
        assert(ROTATIONS[4] == (ROTATIONS[24] + 13) % 64);
    } else if t == 13 {
        assert(ROTATIONS[15] == (ROTATIONS[4] + 14) % 64);
    } else if t == 14 {
        assert(ROTATIONS[23] == (ROTATIONS[15] + 15) % 64);
    } else if t == 15 {
        assert(ROTATIONS[19] == (ROTATIONS[23] + 16) % 64);
    } else if t == 16 {
        assert(ROTATIONS[13] == (ROTATIONS[19] + 17) % 64);
    } else if t == 17 {
        assert(ROTATIONS[12] == (ROTATIONS[13] + 18) % 64);
    } else if t == 18 {
        assert(ROTATIONS[2] == (ROTATIONS[12] + 19) % 64);
    } else if t == 19 {
        assert(ROTATIONS[20] == (ROTATIONS[2] + 20) % 64);
    } else if t == 20 {
        assert(ROTATIONS[14] == (ROTATIONS[20] + 21) % 64);
    } else if t == 21 {
        assert(ROTATIONS[22] == (ROTATIONS[14] + 22) % 64);
    } else if t == 22 {
        assert(ROTATIONS[9] == (ROTATIONS[22] + 23) % 64);
    } else if t == 23 {
        assert(ROTATIONS[6] == (ROTATIONS[9] + 24) % 64);
    }
}

/// The bits that a shift register yields from a one and seven zeros.
#[verifier::opaque]
spec fn register(bits: Seq<int>) -> bool {
    &&& bits[0] == 1
    &&& forall|t: int| 0 < t < 8 ==> #[trigger] bits[t] == 0
    &&& forall|t: int|
        8 <= t < 168 ==> #[trigger] bits[t] == (bits[t - 2] + bits[t - 3] + bits[t - 4] + bits[t
            - 8]) % 2
}

proof fn lemma_first_bits(bits: Seq<int>)
    requires
        register(bits),
    ensures
        bits[0] == 1,
        bits[1] == 0,
        bits[2] == 0,
        bits[3] == 0,
        bits[4] == 0,
        bits[5] == 0,
        bits[6] == 0,
        bits[7] == 0,
{
    reveal(register);
}

proof fn lemma_bit(bits: Seq<int>, t: int)
    requires
        register(bits),
        8 <= t < 168,
    ensures
        bits[t] == (bits[t - 2] + bits[t - 3] + bits[t - 4] + bits[t - 8]) % 2,
{
    reveal(register);
}

proof fn lemma_bits_to_48(bits: Seq<int>)
    requires
        register(bits),
    ensures
        bits[0] == 1,
        bits[1] == 0,
        bits[2] == 0,
        bits[3] == 0,
        bits[4] == 0,
        bits[5] == 0,
        bits[6] == 0,
        bits[7] == 0,
        bits[8] == 1,
        bits[9] == 0,
        bits[10] == 1,
        bits[11] == 1,
        bits[12] == 0,
        bits[13] == 0,
        bits[14] == 0,
        bits[15] == 1,
        bits[16] == 1,
        bits[17] == 1,
        bits[18] == 1,
        bits[19] == 0,
        bits[20] == 1,
        bits[21] == 0,
        bits[22] == 0,
        bits[23] == 0,
        bits[24] == 0,
        bits[25] == 1,
        bits[26] == 1,
        bits[27] == 1,
        bits[28] == 1,
        bits[29] == 1,
        bits[30] == 1,
        bits[31] == 1,
        bits[32] == 1,
        bits[33] == 0,
        bits[34] == 0,
        bits[35] == 1,
        bits[36] == 0,
        bits[37] == 0,
        bits[38] == 0,
        bits[39] == 0,
        bits[40] == 1,
        bits[41] == 0,
        bits[42] == 1,
        bits[43] == 0,
        bits[44] == 0,
        bits[45] == 1,
        bits[46] == 1,
        bits[47] == 1,
{
    lemma_first_bits(bits);
    lemma_bit(bits, 8);
    assert(bits[8] == 1);
    lemma_bit(bits, 9);
    assert(bits[9] == 0);
    lemma_bit(bits, 10);
    assert(bits[10] == 1);
    lemma_bit(bits, 11);
    assert(bits[11] == 1);
    lemma_bit(bits, 12);
    assert(bits[12] == 0);
    lemma_bit(bits, 13);
    assert(bits[13] == 0);
    lemma_bit(bits, 14);
    assert(bits[14] == 0);
    lemma_bit(bits, 15);
    assert(bits[15] == 1);
    lemma_bit(bits, 16);
    assert(bits[16] == 1);
    lemma_bit(bits, 17);
    assert(bits[17] == 1);
    lemma_bit(bits, 18);
    assert(bits[18] == 1);
    lemma_bit(bits, 19);
    assert(bits[19] == 0);
    lemma_bit(bits, 20);
    assert(bits[20] == 1);
    lemma_bit(bits, 21);
    assert(bits[21] == 0);
    lemma_bit(bits, 22);
    assert(bits[22] == 0);
    lemma_bit(bits, 23);
    assert(bits[23] == 0);
    lemma_bit(bits, 24);
    assert(bits[24] == 0);
    lemma_bit(bits, 25);
    assert(bits[25] == 1);
    lemma_bit(bits, 26);
    assert(bits[26] == 1);
    lemma_bit(bits, 27);
    assert(bits[27] == 1);
    lemma_bit(bits, 28);
    assert(bits[28] == 1);
    lemma_bit(bits, 29);
    assert(bits[29] == 1);
    lemma_bit(bits, 30);
    assert(bits[30] == 1);
    lemma_bit(bits, 31);
    assert(bits[31] == 1);
    lemma_bit(bits, 32);
    assert(bits[32] == 1);
    lemma_bit(bits, 33);
    assert(bits[33] == 0);
    lemma_bit(bits, 34);
    assert(bits[34] == 0);
    lemma_bit(bits, 35);
    assert(bits[35] == 1);
    lemma_bit(bits, 36);
    assert(bits[36] == 0);
    lemma_bit(bits, 37);
    assert(bits[37] == 0);
    lemma_bit(bits, 38);
    assert(bits[38] == 0);
    lemma_bit(bits, 39);
    assert(bits[39] == 0);
    lemma_bit(bits, 40);
    assert(bits[40] == 1);
    lemma_bit(bits, 41);
    assert(bits[41] == 0);
    lemma_bit(bits, 42);
    assert(bits[42] == 1);
    lemma_bit(bits, 43);
    assert(bits[43] == 0);
    lemma_bit(bits, 44);
    assert(bits[44] == 0);
    lemma_bit(bits, 45);
    assert(bits[45] == 1);
    lemma_bit(bits, 46);
    assert(bits[46] == 1);
    lemma_bit(bits, 47);
    assert(bits[47] == 1);
}

proof fn lemma_bits_to_88(bits: Seq<int>)
    requires
        register(bits),
    ensures
        bits[48] == 1,
        bits[49] == 1,
        bits[50] == 0,
        bits[51] == 1,
        bits[52] == 0,
        bits[53] == 1,
        bits[54] == 0,
        bits[55] == 1,
        bits[56] == 0,
        bits[57] == 1,
        bits[58] == 1,
        bits[59] == 1,
        bits[60] == 0,
        bits[61] == 0,
        bits[62] == 0,
        bits[63] == 0,
        bits[64] == 0,
        bits[65] == 1,
        bits[66] == 1,
        bits[67] == 0,
        bits[68] == 0,
        bits[69] == 0,
        bits[70] == 1,
        bits[71] == 0,
        bits[72] == 1,
        bits[73] == 0,
        bits[74] == 1,
        bits[75] == 1,
        bits[76] == 0,
        bits[77] == 0,
        bits[78] == 1,
        bits[79] == 1,
        bits[80] == 0,
        bits[81] == 0,
        bits[82] == 1,
        bits[83] == 0,
        bits[84] == 1,
        bits[85] == 1,
        bits[86] == 1,
        bits[87] == 1,
{
    lemma_bits_to_48(bits);
    lemma_bit(bits, 48);
    assert(bits[48] == 1);
    lemma_bit(bits, 49);
    assert(bits[49] == 1);
    lemma_bit(bits, 50);
    assert(bits[50] == 0);
    lemma_bit(bits, 51);
    assert(bits[51] == 1);
    lemma_bit(bits, 52);
    assert(bits[52] == 0);
    lemma_bit(bits, 53);
    assert(bits[53] == 1);
    lemma_bit(bits, 54);
    assert(bits[54] == 0);
    lemma_bit(bits, 55);
    assert(bits[55] == 1);
    lemma_bit(bits, 56);
    assert(bits[56] == 0);
    lemma_bit(bits, 57);
    assert(bits[57] == 1);
    lemma_bit(bits, 58);
    assert(bits[58] == 1);
    lemma_bit(bits, 59);
    assert(bits[59] == 1);
    lemma_bit(bits, 60);
    assert(bits[60] == 0);
    lemma_bit(bits, 61);
    assert(bits[61] == 0);
    lemma_bit(bits, 62);
    assert(bits[62] == 0);
    lemma_bit(bits, 63);
    assert(bits[63] == 0);
    lemma_bit(bits, 64);
    assert(bits[64] == 0);
    lemma_bit(bits, 65);
    assert(bits[65] == 1);
    lemma_bit(bits, 66);
    assert(bits[66] == 1);
    lemma_bit(bits, 67);
    assert(bits[67] == 0);
    lemma_bit(bits, 68);
    assert(bits[68] == 0);
    lemma_bit(bits, 69);
    assert(bits[69] == 0);
    lemma_bit(bits, 70);
    assert(bits[70] == 1);
    lemma_bit(bits, 71);
    assert(bits[71] == 0);
    lemma_bit(bits, 72);
    assert(bits[72] == 1);
    lemma_bit(bits, 73);
    assert(bits[73] == 0);
    lemma_bit(bits, 74);
    assert(bits[74] == 1);
    lemma_bit(bits, 75);
    assert(bits[75] == 1);
    lemma_bit(bits, 76);
    assert(bits[76] == 0);
    lemma_bit(bits, 77);
    assert(bits[77] == 0);
    lemma_bit(bits, 78);
    assert(bits[78] == 1);
    lemma_bit(bits, 79);
    assert(bits[79] == 1);
    lemma_bit(bits, 80);
    assert(bits[80] == 0);
    lemma_bit(bits, 81);
    assert(bits[81] == 0);
    lemma_bit(bits, 82);
    assert(bits[82] == 1);
    lemma_bit(bits, 83);
    assert(bits[83] == 0);
    lemma_bit(bits, 84);
    assert(bits[84] == 1);
    lemma_bit(bits, 85);
    assert(bits[85] == 1);
    lemma_bit(bits, 86);
    assert(bits[86] == 1);
    lemma_bit(bits, 87);
    assert(bits[87] == 1);
}

proof fn lemma_bits_to_128(bits: Seq<int>)
    requires
        register(bits),
    ensures
        bits[88] == 1,
        bits[89] == 1,
        bits[90] == 0,
        bits[91] == 1,
        bits[92] == 1,
        bits[93] == 1,
        bits[94] == 1,
        bits[95] == 0,
        bits[96] == 0,
        bits[97] == 1,
        bits[98] == 1,
        bits[99] == 0,
        bits[100] == 1,
        bits[101] == 1,
        bits[102] == 1,
        bits[103] == 0,
        bits[104] == 1,
        bits[105] == 1,
        bits[106] == 1,
        bits[107] == 0,
        bits[108] == 0,
        bits[109] == 1,
        bits[110] == 0,
        bits[111] == 1,
        bits[112] == 0,
        bits[113] == 1,
        bits[114] == 0,
        bits[115] == 0,
        bits[116] == 1,
        bits[117] == 0,
        bits[118] == 1,
        bits[119] == 0,
        bits[120] == 0,
        bits[121] == 0,
        bits[122] == 1,
        bits[123] == 0,
        bits[124] == 0,
        bits[125] == 1,
        bits[126] == 0,
        bits[127] == 1,
{
    lemma_bits_to_88(bits);
    lemma_bit(bits, 88);
    assert(bits[88] == 1);
    lemma_bit(bits, 89);
    assert(bits[89] == 1);
    lemma_bit(bits, 90);
    assert(bits[90] == 0);
    lemma_bit(bits, 91);
    assert(bits[91] == 1);
    lemma_bit(bits, 92);
    assert(bits[92] == 1);
    lemma_bit(bits, 93);
    assert(bits[93] == 1);
    lemma_bit(bits, 94);
    assert(bits[94] == 1);
    lemma_bit(bits, 95);
    assert(bits[95] == 0);
    lemma_bit(bits, 96);
    assert(bits[96] == 0);
    lemma_bit(bits, 97);
    assert(bits[97] == 1);
    lemma_bit(bits, 98);
    assert(bits[98] == 1);
    lemma_bit(bits, 99);
    assert(bits[99] == 0);
    lemma_bit(bits, 100);
    assert(bits[100] == 1);
    lemma_bit(bits, 101);
    assert(bits[101] == 1);
    lemma_bit(bits, 102);
    assert(bits[102] == 1);
    lemma_bit(bits, 103);
    assert(bits[103] == 0);
    lemma_bit(bits, 104);
    assert(bits[104] == 1);
    lemma_bit(bits, 105);
    assert(bits[105] == 1);
    lemma_bit(bits, 106);
    assert(bits[106] == 1);
    lemma_bit(bits, 107);
    assert(bits[107] == 0);
    lemma_bit(bits, 108);
    assert(bits[108] == 0);
    lemma_bit(bits, 109);
    assert(bits[109] == 1);
    lemma_bit(bits, 110);
    assert(bits[110] == 0);
    lemma_bit(bits, 111);
    assert(bits[111] == 1);
    lemma_bit(bits, 112);
    assert(bits[112] == 0);
    lemma_bit(bits, 113);
    assert(bits[113] == 1);
    lemma_bit(bits, 114);
    assert(bits[114] == 0);
    lemma_bit(bits, 115);
    assert(bits[115] == 0);
    lemma_bit(bits, 116);
    assert(bits[116] == 1);
    lemma_bit(bits, 117);
    assert(bits[117] == 0);
    lemma_bit(bits, 118);
    assert(bits[118] == 1);
    lemma_bit(bits, 119);
    assert(bits[119] == 0);
    lemma_bit(bits, 120);
    assert(bits[120] == 0);
    lemma_bit(bits, 121);
    assert(bits[121] == 0);
    lemma_bit(bits, 122);
    assert(bits[122] == 1);
    lemma_bit(bits, 123);
    assert(bits[123] == 0);
    lemma_bit(bits, 124);
    assert(bits[124] == 0);
    lemma_bit(bits, 125);
    assert(bits[125] == 1);
    lemma_bit(bits, 126);
    assert(bits[126] == 0);
    lemma_bit(bits, 127);
    assert(bits[127] == 1);
}

proof fn lemma_bits_to_168(bits: Seq<int>)
    requires
        register(bits),
    ensures
        bits[128] == 1,
        bits[129] == 0,
        bits[130] == 1,
        bits[131] == 0,
        bits[132] == 0,
        bits[133] == 0,
        bits[134] == 1,
        bits[135] == 1,
        bits[136] == 0,
        bits[137] == 0,
        bits[138] == 1,
        bits[139] == 1,
        bits[140] == 1,
        bits[141] == 0,
        bits[142] == 0,
        bits[143] == 1,
        bits[144] == 1,
        bits[145] == 1,
        bits[146] == 1,
        bits[147] == 0,
        bits[148] == 0,
        bits[149] == 0,
        bits[150] == 1,
        bits[151] == 1,
        bits[152] == 0,
        bits[153] == 1,
        bits[154] == 1,
        bits[155] == 0,
        bits[156] == 0,
        bits[157] == 0,
        bits[158] == 0,
        bits[159] == 1,
        bits[160] == 0,
        bits[161] == 0,
        bits[162] == 0,
        bits[163] == 1,
        bits[164] == 0,
        bits[165] == 1,
        bits[166] == 1,
        bits[167] == 1,
{
    lemma_bits_to_128(bits);
    lemma_bit(bits, 128);
    assert(bits[128] == 1);
    lemma_bit(bits, 129);
    assert(bits[129] == 0);
    lemma_bit(bits, 130);
    assert(bits[130] == 1);
    lemma_bit(bits, 131);
    assert(bits[131] == 0);
    lemma_bit(bits, 132);
    assert(bits[132] == 0);
    lemma_bit(bits, 133);
    assert(bits[133] == 0);
    lemma_bit(bits, 134);
    assert(bits[134] == 1);
    lemma_bit(bits, 135);
    assert(bits[135] == 1);
    lemma_bit(bits, 136);
    assert(bits[136] == 0);
    lemma_bit(bits, 137);
    assert(bits[137] == 0);
    lemma_bit(bits, 138);
    assert(bits[138] == 1);
    lemma_bit(bits, 139);
    assert(bits[139] == 1);
    lemma_bit(bits, 140);
    assert(bits[140] == 1);
    lemma_bit(bits, 141);
    assert(bits[141] == 0);
    lemma_bit(bits, 142);
    assert(bits[142] == 0);
    lemma_bit(bits, 143);
    assert(bits[143] == 1);
    lemma_bit(bits, 144);
    assert(bits[144] == 1);
    lemma_bit(bits, 145);
    assert(bits[145] == 1);
    lemma_bit(bits, 146);
    assert(bits[146] == 1);
    lemma_bit(bits, 147);
    assert(bits[147] == 0);
    lemma_bit(bits, 148);
    assert(bits[148] == 0);
    lemma_bit(bits, 149);
    assert(bits[149] == 0);
    lemma_bit(bits, 150);
    assert(bits[150] == 1);
    lemma_bit(bits, 151);
    assert(bits[151] == 1);
    lemma_bit(bits, 152);
    assert(bits[152] == 0);
    lemma_bit(bits, 153);
    assert(bits[153] == 1);
    lemma_bit(bits, 154);
    assert(bits[154] == 1);
    lemma_bit(bits, 155);
    assert(bits[155] == 0);
    lemma_bit(bits, 156);
    assert(bits[156] == 0);
    lemma_bit(bits, 157);
    assert(bits[157] == 0);
    lemma_bit(bits, 158);
    assert(bits[158] == 0);
    lemma_bit(bits, 159);
    assert(bits[159] == 1);
    lemma_bit(bits, 160);
    assert(bits[160] == 0);
    lemma_bit(bits, 161);
    assert(bits[161] == 0);
    lemma_bit(bits, 162);
    assert(bits[162] == 0);
    lemma_bit(bits, 163);
    assert(bits[163] == 1);
    lemma_bit(bits, 164);
    assert(bits[164] == 0);
    lemma_bit(bits, 165);
    assert(bits[165] == 1);
    lemma_bit(bits, 166);
    assert(bits[166] == 1);
    lemma_bit(bits, 167);
    assert(bits[167] == 1);
}

/// The constants of the rounds: seven bits each, the next of those that a shift register yields from
/// a one and seven zeros, in places 0, 1, 3, 7, 15, 31 and 63.
pub proof fn law_round_constants(bits: Seq<int>, r: int)
    requires
        bits.len() == 168,
        bits[0] == 1,
        forall|t: int| 0 < t < 8 ==> #[trigger] bits[t] == 0,
        forall|t: int|
            8 <= t < 168 ==> #[trigger] bits[t] == (bits[t - 2] + bits[t - 3] + bits[t - 4] + bits[t
                - 8]) % 2,
        0 <= r < 24,
    ensures
        ROUND_CONSTANTS[r] == bits[7 * r] + 2 * bits[7 * r + 1] + 8 * bits[7 * r + 2] + 0x80
            * bits[7 * r + 3] + 0x8000 * bits[7 * r + 4] + 0x8000_0000 * bits[7 * r + 5]
            + 0x8000_0000_0000_0000 * bits[7 * r + 6],
{
    assert(register(bits)) by {
        reveal(register);
    }
    lemma_round_constants(bits, r);
}

proof fn lemma_round_constants(bits: Seq<int>, r: int)
    requires
        register(bits),
        0 <= r < 24,
    ensures
        ROUND_CONSTANTS[r] == bits[7 * r] + 2 * bits[7 * r + 1] + 8 * bits[7 * r + 2] + 0x80
            * bits[7 * r + 3] + 0x8000 * bits[7 * r + 4] + 0x8000_0000 * bits[7 * r + 5]
            + 0x8000_0000_0000_0000 * bits[7 * r + 6],
{
    lemma_bits_to_48(bits);
    lemma_bits_to_88(bits);
    lemma_bits_to_128(bits);
    lemma_bits_to_168(bits);
    if r == 0 {
        assert(ROUND_CONSTANTS[0] == 0x1);
    } else if r == 1 {
        assert(ROUND_CONSTANTS[1] == 0x8082);
    } else if r == 2 {
        assert(ROUND_CONSTANTS[2] == 0x800000000000808a);
    } else if r == 3 {
        assert(ROUND_CONSTANTS[3] == 0x8000000080008000);
    } else if r == 4 {
        assert(ROUND_CONSTANTS[4] == 0x808b);
    } else if r == 5 {
        assert(ROUND_CONSTANTS[5] == 0x80000001);
    } else if r == 6 {
        assert(ROUND_CONSTANTS[6] == 0x8000000080008081);
    } else if r == 7 {
        assert(ROUND_CONSTANTS[7] == 0x8000000000008009);
    } else if r == 8 {
        assert(ROUND_CONSTANTS[8] == 0x8a);
    } else if r == 9 {
        assert(ROUND_CONSTANTS[9] == 0x88);
    } else if r == 10 {
        assert(ROUND_CONSTANTS[10] == 0x80008009);
    } else if r == 11 {
        assert(ROUND_CONSTANTS[11] == 0x8000000a);
    } else if r == 12 {
        assert(ROUND_CONSTANTS[12] == 0x8000808b);
    } else if r == 13 {
        assert(ROUND_CONSTANTS[13] == 0x800000000000008b);
    } else if r == 14 {
        assert(ROUND_CONSTANTS[14] == 0x8000000000008089);
    } else if r == 15 {
        assert(ROUND_CONSTANTS[15] == 0x8000000000008003);
    } else if r == 16 {
        assert(ROUND_CONSTANTS[16] == 0x8000000000008002);
    } else if r == 17 {
        assert(ROUND_CONSTANTS[17] == 0x8000000000000080);
    } else if r == 18 {
        assert(ROUND_CONSTANTS[18] == 0x800a);
    } else if r == 19 {
        assert(ROUND_CONSTANTS[19] == 0x800000008000000a);
    } else if r == 20 {
        assert(ROUND_CONSTANTS[20] == 0x8000000080008081);
    } else if r == 21 {
        assert(ROUND_CONSTANTS[21] == 0x8000000000008080);
    } else if r == 22 {
        assert(ROUND_CONSTANTS[22] == 0x80000001);
    } else if r == 23 {
        assert(ROUND_CONSTANTS[23] == 0x8000000080008008);
    }
}

} // verus!
