//! What the circuit's relation says of messages and digests.

use vstd::prelude::*;

use crate::circuit::semantics::MSB_ONE;
use crate::keccak::sponge::{
    boundary_word, keccak_256, keccak_relation, padded_byte, padded_word, padded_words,
    padding_holds, sponge, with_block, word_of,
};

verus! {

/// Byte `t` of a word.
pub open spec fn byte_of(x: u64, t: int) -> u8 {
    ((x >> ((8 * t) as u64)) & 0xff) as u8
}

/// The first bytes of a message given in words.
pub open spec fn message_bytes(message: Seq<u64>, len: int) -> Seq<u8> {
    Seq::new(len as nat, |i: int| byte_of(message[i / 8], i % 8))
}

/// A word is made of its bytes.
pub proof fn lemma_word_of_bytes(x: u64)
    ensures
        word_of(
            byte_of(x, 0),
            byte_of(x, 1),
            byte_of(x, 2),
            byte_of(x, 3),
            byte_of(x, 4),
            byte_of(x, 5),
            byte_of(x, 6),
            byte_of(x, 7),
        ) == x,
{
    assert((((x >> 0u64) & 0xff) as u8 as u64) | ((((x >> 8u64) & 0xff) as u8 as u64) << 8) | ((((x
        >> 16u64) & 0xff) as u8 as u64) << 16) | ((((x >> 24u64) & 0xff) as u8 as u64) << 24) | ((((
    x >> 32u64) & 0xff) as u8 as u64) << 32) | ((((x >> 40u64) & 0xff) as u8 as u64) << 40) | ((((x
        >> 48u64) & 0xff) as u8 as u64) << 48) | ((((x >> 56u64) & 0xff) as u8 as u64) << 56) == x)
        by (bit_vector);
}

/// Byte `t` of the word in which a message ends, `r` bytes of which belong to it.
pub open spec fn ending_byte(x: u64, r: u64, last_column: bool, t: int) -> u8 {
    let byte = if t < r {
        byte_of(x, t)
    } else if t == r {
        1u8
    } else {
        0u8
    };
    if t == 7 && last_column {
        byte | 0x80
    } else {
        byte
    }
}

/// The word in which a message ends is made of those bytes.
proof fn lemma_ending_word(x: u64, r: u64, last_column: bool)
    requires
        r < 8,
    ensures
        word_of(
            ending_byte(x, r, last_column, 0),
            ending_byte(x, r, last_column, 1),
            ending_byte(x, r, last_column, 2),
            ending_byte(x, r, last_column, 3),
            ending_byte(x, r, last_column, 4),
            ending_byte(x, r, last_column, 5),
            ending_byte(x, r, last_column, 6),
            ending_byte(x, r, last_column, 7),
        ) == ((x & (0x00FF_FFFF_FFFF_FFFFu64 >> ((7 - r) as u64 * 8))) ^ (1u64 << (r * 8))) ^ if last_column {
            MSB_ONE
        } else {
            0
        },
{
    let c0 = ending_byte(x, r, last_column, 0);
    let c1 = ending_byte(x, r, last_column, 1);
    let c2 = ending_byte(x, r, last_column, 2);
    let c3 = ending_byte(x, r, last_column, 3);
    let c4 = ending_byte(x, r, last_column, 4);
    let c5 = ending_byte(x, r, last_column, 5);
    let c6 = ending_byte(x, r, last_column, 6);
    let c7 = ending_byte(x, r, last_column, 7);
    let n: u64 = ((7 - r) * 8) as u64;
    let k: u64 = (r * 8) as u64;
    assert((c0 as u64) | ((c1 as u64) << 8) | ((c2 as u64) << 16) | ((c3 as u64) << 24) | ((
    c4 as u64) << 32) | ((c5 as u64) << 40) | ((c6 as u64) << 48) | ((c7 as u64) << 56) == ((x & (
    0x00FF_FFFF_FFFF_FFFFu64 >> n)) ^ (1u64 << k)) ^ if last_column {
        0x8000_0000_0000_0000u64
    } else {
        0u64
    }) by (bit_vector)
        requires
            r < 8,
            n == (7 - r) * 8,
            k == r * 8,
            c0 == if 0 < r {
                ((x >> 0u64) & 0xff) as u8
            } else {
                1u8
            },
            c1 == if 1 < r {
                ((x >> 8u64) & 0xff) as u8
            } else if 1 == r {
                1u8
            } else {
                0u8
            },
            c2 == if 2 < r {
                ((x >> 16u64) & 0xff) as u8
            } else if 2 == r {
                1u8
            } else {
                0u8
            },
            c3 == if 3 < r {
                ((x >> 24u64) & 0xff) as u8
            } else if 3 == r {
                1u8
            } else {
                0u8
            },
            c4 == if 4 < r {
                ((x >> 32u64) & 0xff) as u8
            } else if 4 == r {
                1u8
            } else {
                0u8
            },
            c5 == if 5 < r {
                ((x >> 40u64) & 0xff) as u8
            } else if 5 == r {
                1u8
            } else {
                0u8
            },
            c6 == if 6 < r {
                ((x >> 48u64) & 0xff) as u8
            } else if 6 == r {
                1u8
            } else {
                0u8
            },
            c7 == if last_column {
                (if 7 == r {
                    1u8
                } else {
                    0u8
                }) | 0x80
            } else {
                if 7 == r {
                    1u8
                } else {
                    0u8
                }
            },
    ;
}

/// The word that ends a block in which a message has ended before: its highest bit alone is set.
proof fn lemma_delimiter_word()
    ensures
        word_of(0, 0, 0, 0, 0, 0, 0, 0x80) == MSB_ONE,
        word_of(0, 0, 0, 0, 0, 0, 0, 0) == 0,
        0u8 | 0x80 == 0x80,
{
    assert((0u8 as u64) | ((0u8 as u64) << 8) | ((0u8 as u64) << 16) | ((0u8 as u64) << 24) | ((
    0u8 as u64) << 32) | ((0u8 as u64) << 40) | ((0u8 as u64) << 48) | ((0x80u8 as u64) << 56)
        == 0x8000_0000_0000_0000u64) by (bit_vector);
    assert((0u8 as u64) | ((0u8 as u64) << 8) | ((0u8 as u64) << 16) | ((0u8 as u64) << 24) | ((
    0u8 as u64) << 32) | ((0u8 as u64) << 40) | ((0u8 as u64) << 48) | ((0u8 as u64) << 56)
        == 0u64) by (bit_vector);
    assert(0u8 | 0x80 == 0x80) by (bit_vector);
}

/// Before the word in which a message ends, the padded words are the message's.
proof fn lemma_full_word(bytes: Seq<u8>, x: u64, i: int)
    requires
        0 <= i < bytes.len() as int / 8,
        forall|t: int| 0 <= t < 8 ==> #[trigger] bytes[8 * i + t] == byte_of(x, t),
    ensures
        padded_word(bytes, i) == x,
{
    lemma_word_of_bytes(x);
    assert(bytes[8 * i + 0] == byte_of(x, 0) && bytes[8 * i + 1] == byte_of(x, 1));
    assert(bytes[8 * i + 2] == byte_of(x, 2) && bytes[8 * i + 3] == byte_of(x, 3));
    assert(bytes[8 * i + 4] == byte_of(x, 4) && bytes[8 * i + 5] == byte_of(x, 5));
    assert(bytes[8 * i + 6] == byte_of(x, 6) && bytes[8 * i + 7] == byte_of(x, 7));
}

/// The padded word in which a message ends is the boundary word, whatever the bytes of the message's
/// word behind the end.
proof fn lemma_boundary(bytes: Seq<u8>, message: Seq<u64>, len: u64)
    requires
        len == bytes.len(),
        len <= 8 * message.len(),
        forall|t: int|
            0 <= t < len % 8 ==> #[trigger] bytes[8 * (len as int / 8) + t] == byte_of(
                message[len as int / 8],
                t,
            ),
    ensures
        padded_word(bytes, len as int / 8) == boundary_word(message, len),
{
    let at = len as int / 8;
    let r = len % 8;
    let last_column = at % 17 == 16;
    let x = if at < message.len() {
        message[at]
    } else {
        0u64
    };
    lemma_ending_word(x, r, last_column);
    if at >= message.len() {
        assert(r == 0);
        assert(0u64 & (0x00FF_FFFF_FFFF_FFFFu64 >> 56u64) == 0) by (bit_vector);
    }
    assert(last_column <==> 8 * at + 7 == 136 * (len as int / 136) + 135);
    lemma_boundary_byte(bytes, x, len, 0);
    lemma_boundary_byte(bytes, x, len, 1);
    lemma_boundary_byte(bytes, x, len, 2);
    lemma_boundary_byte(bytes, x, len, 3);
    lemma_boundary_byte(bytes, x, len, 4);
    lemma_boundary_byte(bytes, x, len, 5);
    lemma_boundary_byte(bytes, x, len, 6);
    lemma_boundary_byte(bytes, x, len, 7);
}

proof fn lemma_boundary_byte(bytes: Seq<u8>, x: u64, len: u64, t: int)
    requires
        len == bytes.len(),
        0 <= t < 8,
        t < len % 8 ==> bytes[8 * (len as int / 8) + t] == byte_of(x, t),
    ensures
        padded_byte(bytes, 8 * (len as int / 8) + t) == ending_byte(
            x,
            len % 8,
            (len as int / 8) % 17 == 16,
            t,
        ),
{
    let at = len as int / 8;
    let i = 8 * at + t;
    assert(i < len <==> t < len % 8);
    assert(i == len <==> t == len % 8);
    assert((t == 7 && at % 17 == 16) <==> i == 136 * (len as int / 136) + 135);
}

/// Behind the word in which a message ends, the padded words are zero, but for the last of the
/// message's last block.
proof fn lemma_after_word(bytes: Seq<u8>, i: int)
    requires
        i > bytes.len() as int / 8,
    ensures
        padded_word(bytes, i) == if i == 17 * (bytes.len() as int / 136) + 16 {
            MSB_ONE
        } else {
            0
        },
{
    lemma_delimiter_word();
    let len = bytes.len() as int;
    let last = 136 * (len / 136) + 135;
    assert(8 * i > len);
    assert(8 * i + 7 == last <==> i == 17 * (len / 136) + 16);
    assert(8 * i != last && 8 * i + 1 != last && 8 * i + 2 != last && 8 * i + 3 != last);
    assert(8 * i + 4 != last && 8 * i + 5 != last && 8 * i + 6 != last);
}

/// The state after some blocks depends on the words of those blocks alone.
pub proof fn lemma_sponge_words(a: Seq<u64>, b: Seq<u64>, n: int)
    requires
        forall|i: int| 0 <= i < 17 * n ==> #[trigger] a[i] == b[i],
    ensures
        sponge(a, n) == sponge(b, n),
    decreases n,
{
    if n > 0 {
        lemma_sponge_words(a, b, n - 1);
        let s = sponge(a, n - 1);
        let x = with_block(s, a, 17 * (n - 1));
        let y = with_block(s, b, 17 * (n - 1));
        assert forall|i: int| 0 <= i < 25 implies #[trigger] x[i] == y[i] by {
            if i < 17 {
                assert(a[17 * (n - 1) + i] == b[17 * (n - 1) + i]);
            }
        }
        assert(x =~= y);
    }
}

/// Whatever an honest or dishonest prover puts on the wires: what the circuit accepts as a digest is
/// the Keccak-256 digest of the claimed number of bytes of the message.
pub proof fn law_keccak_sound(len: u64, digest: Seq<u64>, message: Seq<u64>, padded: Seq<u64>)
    requires
        keccak_relation(len, digest, message, padded),
        padded.len() == 17 * ((8 * message.len()) as int / 136 + 1),
    ensures
        digest == keccak_256(message_bytes(message, len as int)),
{
    let bytes = message_bytes(message, len as int);
    let at = len as int / 8;
    let end = len as int / 136;
    let n_blocks = end + 1;
    let expected = padded_words(bytes, n_blocks);
    assert forall|i: int| 0 <= i < 17 * n_blocks implies #[trigger] padded[i] == expected[i] by {
        if i < at {
            assert forall|t: int| 0 <= t < 8 implies #[trigger] bytes[8 * i + t] == byte_of(
                message[i],
                t,
            ) by {
                assert((8 * i + t) / 8 == i && (8 * i + t) % 8 == t);
            }
            lemma_full_word(bytes, message[i], i);
            assert(padded[i] == message[i]);
        } else if i == at {
            assert forall|t: int| 0 <= t < len % 8 implies #[trigger] bytes[8 * at + t] == byte_of(
                message[at],
                t,
            ) by {
                assert((8 * at + t) / 8 == at && (8 * at + t) % 8 == t);
            }
            lemma_boundary(bytes, message, len);
        } else {
            lemma_after_word(bytes, i);
            if i % 17 == 16 {
                assert(i == 17 * end + 16);
                assert(at % 17 != 16);
            }
        }
    }
    lemma_sponge_words(padded, expected, n_blocks);
}

/// The words of a message given in bytes, the last filled up with zeros.
pub open spec fn packed_word(bytes: Seq<u8>, i: int) -> u64 {
    word_of(
        byte_or_zero(bytes, 8 * i),
        byte_or_zero(bytes, 8 * i + 1),
        byte_or_zero(bytes, 8 * i + 2),
        byte_or_zero(bytes, 8 * i + 3),
        byte_or_zero(bytes, 8 * i + 4),
        byte_or_zero(bytes, 8 * i + 5),
        byte_or_zero(bytes, 8 * i + 6),
        byte_or_zero(bytes, 8 * i + 7),
    )
}

/// A byte, or zero behind the last.
pub open spec fn byte_or_zero(bytes: Seq<u8>, i: int) -> u8 {
    if i < bytes.len() {
        bytes[i]
    } else {
        0
    }
}

/// The bytes of a word are those it is made of.
pub proof fn lemma_bytes_of_word(
    b0: u8,
    b1: u8,
    b2: u8,
    b3: u8,
    b4: u8,
    b5: u8,
    b6: u8,
    b7: u8,
)
    ensures
        ({
            let x = word_of(b0, b1, b2, b3, b4, b5, b6, b7);
            &&& byte_of(x, 0) == b0
            &&& byte_of(x, 1) == b1
            &&& byte_of(x, 2) == b2
            &&& byte_of(x, 3) == b3
            &&& byte_of(x, 4) == b4
            &&& byte_of(x, 5) == b5
            &&& byte_of(x, 6) == b6
            &&& byte_of(x, 7) == b7
        }),
{
    let x = word_of(b0, b1, b2, b3, b4, b5, b6, b7);
    assert(((x >> 0u64) & 0xff) as u8 == b0 && ((x >> 8u64) & 0xff) as u8 == b1 && ((x >> 16u64)
        & 0xff) as u8 == b2 && ((x >> 24u64) & 0xff) as u8 == b3 && ((x >> 32u64) & 0xff) as u8
        == b4 && ((x >> 40u64) & 0xff) as u8 == b5 && ((x >> 48u64) & 0xff) as u8 == b6 && ((x
        >> 56u64) & 0xff) as u8 == b7) by (bit_vector)
        requires
            x == (b0 as u64) | ((b1 as u64) << 8) | ((b2 as u64) << 16) | ((b3 as u64) << 24) | ((
            b4 as u64) << 32) | ((b5 as u64) << 40) | ((b6 as u64) << 48) | ((b7 as u64) << 56),
    ;
}

pub proof fn lemma_packed_byte(bytes: Seq<u8>, i: int, t: int)
    requires
        0 <= i,
        0 <= t < 8,
        8 * i + t < bytes.len(),
    ensures
        byte_of(packed_word(bytes, i), t) == bytes[8 * i + t],
{
    lemma_bytes_of_word(
        byte_or_zero(bytes, 8 * i),
        byte_or_zero(bytes, 8 * i + 1),
        byte_or_zero(bytes, 8 * i + 2),
        byte_or_zero(bytes, 8 * i + 3),
        byte_or_zero(bytes, 8 * i + 4),
        byte_or_zero(bytes, 8 * i + 5),
        byte_or_zero(bytes, 8 * i + 6),
        byte_or_zero(bytes, 8 * i + 7),
    );
}

/// A message that fits, put on the wires with its padding, is accepted with its Keccak-256 digest
/// and with no other. Words of the message behind its last byte do not matter.
pub proof fn law_keccak_complete(
    bytes: Seq<u8>,
    digest: Seq<u64>,
    message: Seq<u64>,
    padded: Seq<u64>,
    n_blocks: int,
)
    requires
        bytes.len() <= 8 * message.len() <= u64::MAX,
        n_blocks == (8 * message.len()) as int / 136 + 1,
        forall|i: int|
            0 <= i && 8 * i < bytes.len() ==> #[trigger] message[i] == packed_word(bytes, i),
        padded == padded_words(bytes, n_blocks),
    ensures
        keccak_relation(bytes.len() as u64, digest, message, padded) <==> digest == keccak_256(
            bytes,
        ),
{
    let len = bytes.len() as u64;
    let at = len as int / 8;
    let end = len as int / 136;
    assert forall|i: int| 0 <= i < message.len() && i < at implies #[trigger] padded[i]
        == message[i] by {
        assert forall|t: int| 0 <= t < 8 implies #[trigger] bytes[8 * i + t] == byte_of(
            message[i],
            t,
        ) by {
            lemma_packed_byte(bytes, i, t);
        }
        lemma_full_word(bytes, message[i], i);
    }
    assert forall|t: int| 0 <= t < len % 8 implies #[trigger] bytes[8 * at + t] == byte_of(
        message[at],
        t,
    ) by {
        assert(message[at] == packed_word(bytes, at));
        lemma_packed_byte(bytes, at, t);
    }
    lemma_boundary(bytes, message, len);
    assert forall|i: int| at < i < padded.len() && i % 17 != 16 implies #[trigger] padded[i]
        == 0 by {
        lemma_after_word(bytes, i);
        assert((17 * end + 16) % 17 == 16);
    }
    if at % 17 != 16 {
        lemma_after_word(bytes, 17 * end + 16);
    }
    assert(padding_holds(len, message, padded));
    lemma_sponge_words(padded, padded_words(bytes, end + 1), end + 1);
}

} // verus!
