//! The checksum over the bytes of a cache, and the mixing step that it shares with the digest.

use vstd::arithmetic::div_mod::{
    lemma_mod_multiples_vanish, lemma_mul_mod_noop_left, lemma_small_mod,
};
use vstd::prelude::*;
use vstd::slice::slice_to_vec;

use crate::serialization::buffers::{get_u64_le, remaining};
use crate::serialization::little_endian::{
    le_limit, le_value, lemma_le_bytes_of_value, lemma_le_limits, lemma_le_value_limit,
};

verus! {

/// The factor of the mixing step.
pub const PRIME: u64 = 0x0000_0100_0000_01b3;

/// Where mixing starts.
pub const OFFSET_BASIS: u64 = 0xcbf2_9ce4_8422_2325;

/// One step: a word is mixed into the state.
pub open spec fn mix(h: u64, word: u64) -> u64 {
    (h ^ word).wrapping_mul(PRIME)
}

/// The number whose product with the factor is one.
const INVERSE: u64 = 0xce96_5057_aff6_957b;

/// A product with the factor, times the factor's inverse, is the number again.
proof fn lemma_product_inverse(a: u64)
    ensures
        (a.wrapping_mul(PRIME) * INVERSE) % 0x1_0000_0000_0000_0000 == a,
{
    let m: int = 0x1_0000_0000_0000_0000;
    let p: int = PRIME as int;
    let q: int = INVERSE as int;
    let k: int = 0xce_9650_590f;
    assert(p * q == k * m + 1);
    lemma_mul_mod_noop_left(a * p, q, m);
    assert((a * p) * q == m * (a * k) + a) by (nonlinear_arith)
        requires
            p * q == k * m + 1,
    ;
    lemma_mod_multiples_vanish(a * k, a as int, m);
    lemma_small_mod(a as nat, m as nat);
}

/// Mixing one word into two states yields one state only where they are one.
pub proof fn lemma_mix_state(a: u64, b: u64, word: u64)
    requires
        mix(a, word) == mix(b, word),
    ensures
        a == b,
{
    lemma_product_inverse(a ^ word);
    lemma_product_inverse(b ^ word);
    assert(a ^ word == b ^ word ==> a == b) by (bit_vector);
}

/// Mixing two words into one state yields one state only where they are one.
pub proof fn lemma_mix_word(h: u64, a: u64, b: u64)
    requires
        mix(h, a) == mix(h, b),
    ensures
        a == b,
{
    lemma_product_inverse(h ^ a);
    lemma_product_inverse(h ^ b);
    assert(h ^ a == h ^ b ==> a == b) by (bit_vector);
}

/// The bytes, eight at a time as one word, mixed in order. Those left over make the last word,
/// with zeros above them; there is a last word also where none are left over.
pub open spec fn mix_bytes(h: u64, bytes: Seq<u8>) -> u64
    decreases bytes.len(),
{
    if bytes.len() >= 8 {
        mix_bytes(mix(h, le_value(bytes.take(8)) as u64), bytes.skip(8))
    } else {
        mix(h, le_value(bytes) as u64)
    }
}

/// The checksum of bytes. Their number is part of where mixing starts.
pub open spec fn checksum(bytes: Seq<u8>) -> u64 {
    mix_bytes(OFFSET_BASIS ^ (bytes.len() as u64), bytes)
}

/// Zeros above a number do not change it.
pub proof fn lemma_le_value_padded(s: Seq<u8>, zeros: nat)
    ensures
        le_value(s + Seq::new(zeros, |i: int| 0u8)) == le_value(s),
    decreases s.len() + zeros,
{
    let padded = s + Seq::new(zeros, |i: int| 0u8);
    if s.len() > 0 {
        lemma_le_value_padded(s.skip(1), zeros);
        assert(padded.skip(1) =~= s.skip(1) + Seq::new(zeros, |i: int| 0u8));
    } else if zeros > 0 {
        lemma_le_value_padded(s, (zeros - 1) as nat);
        assert(padded.skip(1) =~= s + Seq::new((zeros - 1) as nat, |i: int| 0u8));
    } else {
        assert(padded =~= s);
    }
}

/// Folds the bytes into one word, one product per eight bytes.
pub fn payload_checksum(bytes: &[u8]) -> (sum: u64)
    ensures
        sum == checksum(bytes@),
{
    let mut h: u64 = OFFSET_BASIS ^ (bytes.len() as u64);
    let mut buf: &[u8] = bytes;
    while remaining(&buf) >= 8
        invariant
            checksum(bytes@) == mix_bytes(h, buf@),
        decreases buf@.len(),
    {
        let word: u64 = get_u64_le(&mut buf);
        h = (h ^ word).wrapping_mul(PRIME);
    }
    let mut tail: Vec<u8> = slice_to_vec(buf);
    tail.resize(8, 0);
    let mut last: &[u8] = tail.as_slice();
    proof {
        let zeros = (8 - buf@.len()) as nat;
        assert(tail@ =~= buf@ + Seq::new(zeros, |i: int| 0u8));
        lemma_le_value_padded(buf@, zeros);
        assert(last@.take(8) =~= tail@);
    }
    let word: u64 = get_u64_le(&mut last);
    (h ^ word).wrapping_mul(PRIME)
}

/// Mixing the same bytes into two states yields one state only where they are one.
proof fn lemma_mix_bytes_state(a: u64, b: u64, bytes: Seq<u8>)
    requires
        mix_bytes(a, bytes) == mix_bytes(b, bytes),
    ensures
        a == b,
    decreases bytes.len(),
{
    if bytes.len() >= 8 {
        let word = le_value(bytes.take(8)) as u64;
        lemma_mix_bytes_state(mix(a, word), mix(b, word), bytes.skip(8));
        lemma_mix_state(a, b, word);
    } else {
        lemma_mix_state(a, b, le_value(bytes) as u64);
    }
}

/// Bytes, at most eight of them, are determined by their word.
proof fn lemma_word_injective(a: Seq<u8>, b: Seq<u8>)
    requires
        a.len() == b.len() <= 8,
        le_value(a) as u64 == le_value(b) as u64,
    ensures
        a == b,
{
    lemma_le_value_limit(a);
    lemma_le_value_limit(b);
    lemma_le_limits();
    lemma_le_limit_monotone(a.len(), 8);
    lemma_le_bytes_of_value(a);
    lemma_le_bytes_of_value(b);
}

proof fn lemma_le_limit_monotone(m: nat, n: nat)
    requires
        m <= n,
    ensures
        le_limit(m) <= le_limit(n),
    decreases n,
{
    if m < n {
        lemma_le_limit_monotone(m, (n - 1) as nat);
    }
}

/// Whether two byte strings of one length differ, but only inside the eight bytes of word `at`.
pub open spec fn differ_in_word(a: Seq<u8>, b: Seq<u8>, at: int) -> bool {
    &&& a.len() == b.len()
    &&& a != b
    &&& forall|i: int| 0 <= i < a.len() && i / 8 != at ==> #[trigger] a[i] == b[i]
}

proof fn lemma_mix_bytes_detects(h: u64, a: Seq<u8>, b: Seq<u8>, at: int)
    requires
        differ_in_word(a, b, at),
    ensures
        mix_bytes(h, a) != mix_bytes(h, b),
    decreases a.len(),
{
    if a.len() >= 8 {
        let x = a.take(8);
        let y = b.take(8);
        let c = a.skip(8);
        let d = b.skip(8);
        if x == y {
            assert forall|i: int| 0 <= i < c.len() && i / 8 != at - 1 implies #[trigger] c[i]
                == d[i] by {
                assert(c[i] == a[i + 8] && d[i] == b[i + 8]);
            }
            if c == d {
                assert(a =~= x + c);
                assert(b =~= y + d);
            }
            lemma_mix_bytes_detects(mix(h, le_value(x) as u64), c, d, at - 1);
        } else {
            let i = choose|i: int| 0 <= i < 8 && x[i] != y[i];
            assert(exists|i: int| 0 <= i < 8 && x[i] != y[i]) by {
                if forall|i: int| 0 <= i < 8 ==> x[i] == y[i] {
                    assert(x =~= y);
                }
            }
            assert(a[i] != b[i]);
            assert(at == 0);
            assert forall|k: int| 0 <= k < c.len() implies #[trigger] c[k] == d[k] by {
                assert(c[k] == a[k + 8] && d[k] == b[k + 8]);
            }
            assert(c =~= d);
            if mix_bytes(h, a) == mix_bytes(h, b) {
                lemma_mix_bytes_state(
                    mix(h, le_value(x) as u64),
                    mix(h, le_value(y) as u64),
                    c,
                );
                lemma_mix_word(h, le_value(x) as u64, le_value(y) as u64);
                lemma_word_injective(x, y);
            }
        }
    } else if mix_bytes(h, a) == mix_bytes(h, b) {
        lemma_mix_word(h, le_value(a) as u64, le_value(b) as u64);
        lemma_word_injective(a, b);
    }
}

/// A change inside one word of the bytes, and so any change of one byte, changes the checksum.
pub proof fn law_checksum_detects(a: Seq<u8>, b: Seq<u8>, at: int)
    requires
        differ_in_word(a, b, at),
    ensures
        checksum(a) != checksum(b),
{
    lemma_mix_bytes_detects(OFFSET_BASIS ^ (a.len() as u64), a, b, at);
}

} // verus!
