//! The values of the wires of a Keccak-256 circuit.

use vstd::prelude::*;

use crate::circuit::builder::{lemma_asserted, CircuitBuilder};
use crate::circuit::semantics::{val, vals};
use crate::circuit::witness::{lemma_with_words, with_words, WitnessFiller};
use crate::keccak::circuit::Keccak256;
use crate::keccak::laws::{
    byte_or_zero, law_keccak_complete, law_keccak_sound, message_bytes, packed_word,
};
use crate::keccak::sponge::{
    keccak_256, padded_byte, padded_word, padded_words, RATE_BYTES,
};

verus! {

/// The number of words that bytes take.
pub open spec fn n_packed(len: int) -> int {
    (len + 7) / 8
}

/// The words of bytes, the last filled up with zeros.
pub open spec fn packed_words(bytes: Seq<u8>) -> Seq<u64> {
    Seq::new(n_packed(bytes.len() as int) as nat, |i: int| packed_word(bytes, i))
}

/// A byte, or zero behind the last.
fn byte_at(bytes: &[u8], i: usize) -> (byte: u8)
    ensures
        byte == byte_or_zero(bytes@, i as int),
{
    if i < bytes.len() {
        bytes[i]
    } else {
        0
    }
}

/// A word of bytes, filled up with zeros.
fn word_at(bytes: &[u8], i: usize) -> (word: u64)
    requires
        8 * i + 7 <= usize::MAX,
    ensures
        word == packed_word(bytes@, i as int),
{
    (byte_at(bytes, 8 * i) as u64) | ((byte_at(bytes, 8 * i + 1) as u64) << 8) | ((byte_at(
        bytes,
        8 * i + 2,
    ) as u64) << 16) | ((byte_at(bytes, 8 * i + 3) as u64) << 24) | ((byte_at(
        bytes,
        8 * i + 4,
    ) as u64) << 32) | ((byte_at(bytes, 8 * i + 5) as u64) << 40) | ((byte_at(
        bytes,
        8 * i + 6,
    ) as u64) << 48) | ((byte_at(bytes, 8 * i + 7) as u64) << 56)
}

/// The bytes of a padded message, for a number of blocks that has room for it.
fn pad(message_bytes: &[u8], n_blocks: usize) -> (padded: Vec<u8>)
    requires
        message_bytes@.len() < 136 * n_blocks <= usize::MAX,
    ensures
        padded@.len() == 136 * n_blocks,
        forall|i: int|
            0 <= i < padded@.len() ==> #[trigger] padded@[i] == padded_byte(message_bytes@, i),
{
    let mut padded_bytes: Vec<u8> = Vec::new();
    padded_bytes.resize(n_blocks * RATE_BYTES, 0);
    let msg_len: usize = message_bytes.len();
    let mut i: usize = 0;
    while i < msg_len
        invariant
            i <= msg_len == message_bytes@.len() < padded_bytes@.len() == 136 * n_blocks,
            forall|k: int| 0 <= k < i ==> #[trigger] padded_bytes@[k] == message_bytes@[k],
            forall|k: int| i <= k < padded_bytes@.len() ==> #[trigger] padded_bytes@[k] == 0,
        decreases msg_len - i,
    {
        padded_bytes.set(i, message_bytes[i]);
        i += 1;
    }
    let num_full_blocks: usize = msg_len / RATE_BYTES;
    let padding_block_start: usize = num_full_blocks * RATE_BYTES;
    padded_bytes.set(msg_len, 0x01);
    let padding_block_end: usize = padding_block_start + (RATE_BYTES - 1);
    let last: u8 = padded_bytes[padding_block_end];
    padded_bytes.set(padding_block_end, last | 0x80);
    padded_bytes
}

impl Keccak256 {
    /// Populates the witness with the actual message length.
    pub fn populate_len_bytes(&self, w: &mut WitnessFiller, len_bytes: usize)
        requires
            self.wf(),
            len_bytes <= 8 * self.message@.len(),
            self.len_bytes.index < old(w)@.len(),
        ensures
            final(w)@ == old(w)@.update(self.len_bytes.index as int, len_bytes as u64),
    {
        w.set(self.len_bytes, len_bytes as u64);
    }

    /// Populates the witness with the expected digest, packed into four words.
    pub fn populate_digest(&self, w: &mut WitnessFiller, digest: [u8; 32])
        requires
            forall|i: int| 0 <= i < 4 ==> (#[trigger] self.digest@[i]).index < old(w)@.len(),
        ensures
            final(w)@ == with_words(old(w)@, self.digest@, packed_words(digest@)),
    {
        let bytes: &[u8] = vstd::array::array_as_slice(&digest);
        let ghost words = packed_words(digest@);
        let mut i: usize = 0;
        assert(words.take(0) =~= Seq::<u64>::empty());
        while i < 4
            invariant
                i <= 4,
                bytes@ == digest@,
                words == packed_words(digest@),
                words.len() == 4,
                w@.len() == old(w)@.len(),
                w@ == with_words(old(w)@, self.digest@, words.take(i as int)),
                forall|i: int| 0 <= i < 4 ==> (#[trigger] self.digest@[i]).index < old(w)@.len(),
            decreases 4 - i,
        {
            let word: u64 = word_at(bytes, i);
            assert(self.digest@[i as int].index < old(w)@.len());
            w.set(self.digest[i], word);
            assert(words.take(i + 1).drop_last() =~= words.take(i as int));
            i += 1;
        }
        assert(words.take(4) =~= words);
    }

    /// The first `n_words` words of bytes, or all where there are fewer; the last is filled up with
    /// zeros.
    fn pack_bytes_into_words(&self, bytes: &[u8], n_words: usize) -> (words: Vec<u64>)
        requires
            8 * n_words + 7 <= usize::MAX,
        ensures
            words@ == packed_words(bytes@).take(
                if n_words < n_packed(bytes@.len() as int) {
                    n_words as int
                } else {
                    n_packed(bytes@.len() as int)
                },
            ),
    {
        let mut words: Vec<u64> = Vec::with_capacity(n_words);
        let mut i: usize = 0;
        while i < n_words
            invariant
                i <= n_words,
                8 * n_words + 7 <= usize::MAX,
                words@.len() == if i < n_packed(bytes@.len() as int) {
                    i as int
                } else {
                    n_packed(bytes@.len() as int)
                },
                forall|k: int|
                    0 <= k < words@.len() ==> #[trigger] words@[k] == packed_word(bytes@, k),
            decreases n_words - i,
        {
            if i * 8 < bytes.len() {
                words.push(word_at(bytes, i));
            }
            i += 1;
        }
        words
    }

    /// Populates the witness with a message and its padded form, packed into words.
    pub fn populate_message(&self, w: &mut WitnessFiller, message_bytes: &[u8])
        requires
            self.wf(),
            message_bytes@.len() <= 8 * self.message@.len(),
            forall|i: int|
                0 <= i < self.message@.len() ==> (#[trigger] self.message@[i]).index < old(
                    w,
                )@.len(),
            forall|i: int|
                0 <= i < self.padded_message@.len() ==> (#[trigger] self.padded_message@[i]).index
                    < old(w)@.len(),
        ensures
            final(w)@ == with_words(
                with_words(old(w)@, self.message@, packed_words(message_bytes@)),
                self.padded_message@,
                padded_words(message_bytes@, self.n_blocks as int),
            ),
    {
        // populate message words from input bytes
        let words = self.pack_bytes_into_words(message_bytes, self.message.len());
        let mut i: usize = 0;
        assert(words@ =~= packed_words(message_bytes@));
        assert(words@.take(0) =~= Seq::<u64>::empty());
        while i < words.len()
            invariant
                i <= words@.len() <= self.message@.len(),
                w@.len() == old(w)@.len(),
                w@ == with_words(old(w)@, self.message@, words@.take(i as int)),
                forall|i: int|
                    0 <= i < self.message@.len() ==> (#[trigger] self.message@[i]).index < old(
                        w,
                    )@.len(),
            decreases words@.len() - i,
        {
            assert(self.message@[i as int].index < old(w)@.len());
            w.set(self.message[i], words[i]);
            assert(words@.take(i + 1).drop_last() =~= words@.take(i as int));
            i += 1;
        }
        assert(words@.take(i as int) =~= words@);
        let ghost middle = w@;

        let padded_bytes = pad(message_bytes, self.n_blocks);
        let ghost padded = padded_words(message_bytes@, self.n_blocks as int);
        let n_padded: usize = self.padded_message.len();
        i = 0;
        assert(padded.take(0) =~= Seq::<u64>::empty());
        while i < n_padded
            invariant
                self.wf(),
                i <= n_padded == self.padded_message@.len(),
                padded == padded_words(message_bytes@, self.n_blocks as int),
                padded_bytes@.len() == 136 * self.n_blocks <= usize::MAX,
                forall|i: int|
                    0 <= i < padded_bytes@.len() ==> #[trigger] padded_bytes@[i] == padded_byte(
                        message_bytes@,
                        i,
                    ),
                w@.len() == old(w)@.len(),
                w@ == with_words(middle, self.padded_message@, padded.take(i as int)),
                forall|i: int|
                    0 <= i < self.padded_message@.len() ==> (
                    #[trigger] self.padded_message@[i]).index < old(w)@.len(),
            decreases n_padded - i,
        {
            let word: u64 = word_at(padded_bytes.as_slice(), i);
            proof {
                lemma_padded_word(padded_bytes@, message_bytes@, i as int);
                assert(self.padded_message@[i as int].index < old(w)@.len());
            }
            w.set(self.padded_message[i], word);
            assert(padded.take(i + 1).drop_last() =~= padded.take(i as int));
            i += 1;
        }
        assert(padded.take(i as int) =~= padded);
    }
}

/// The words of padded bytes are those of the padded message.
proof fn lemma_padded_word(padded: Seq<u8>, message: Seq<u8>, i: int)
    requires
        0 <= i,
        8 * i + 7 < padded.len(),
        forall|k: int| 0 <= k < padded.len() ==> #[trigger] padded[k] == padded_byte(message, k),
    ensures
        packed_word(padded, i) == padded_word(message, i),
{
    assert(padded[8 * i] == padded_byte(message, 8 * i));
    assert(padded[8 * i + 1] == padded_byte(message, 8 * i + 1));
    assert(padded[8 * i + 2] == padded_byte(message, 8 * i + 2));
    assert(padded[8 * i + 3] == padded_byte(message, 8 * i + 3));
    assert(padded[8 * i + 4] == padded_byte(message, 8 * i + 4));
    assert(padded[8 * i + 5] == padded_byte(message, 8 * i + 5));
    assert(padded[8 * i + 6] == padded_byte(message, 8 * i + 6));
    assert(padded[8 * i + 7] == padded_byte(message, 8 * i + 7));
}

impl Keccak256 {
    /// Whether no two wires of the circuit's interface are the same.
    pub open spec fn wires_distinct(&self) -> bool {
        &&& forall|i: int, j: int|
            0 <= i < j < 4 ==> (#[trigger] self.digest@[i]).index != (
            #[trigger] self.digest@[j]).index
        &&& forall|i: int, j: int|
            0 <= i < j < self.message@.len() ==> (#[trigger] self.message@[i]).index != (
            #[trigger] self.message@[j]).index
        &&& forall|i: int, j: int|
            0 <= i < 4 && 0 <= j < self.message@.len() ==> (#[trigger] self.digest@[i]).index != (
            #[trigger] self.message@[j]).index
        &&& forall|i: int, j: int|
            0 <= i < 4 && 0 <= j < self.padded_message@.len() ==> (
            #[trigger] self.digest@[i]).index != (#[trigger] self.padded_message@[j]).index
        &&& forall|i: int, j: int|
            0 <= i < self.message@.len() && 0 <= j < self.padded_message@.len() ==> (
            #[trigger] self.message@[i]).index != (#[trigger] self.padded_message@[j]).index
        &&& forall|i: int| 0 <= i < 4 ==> (#[trigger] self.digest@[i]).index != self.len_bytes.index
        &&& forall|i: int|
            0 <= i < self.message@.len() ==> (#[trigger] self.message@[i]).index
                != self.len_bytes.index
        &&& forall|i: int|
            0 <= i < self.padded_message@.len() ==> (#[trigger] self.padded_message@[i]).index
                != self.len_bytes.index
    }

    /// Whether all wires of the circuit's interface have a value in an assignment.
    pub open spec fn wires_in(&self, w: Seq<u64>) -> bool {
        &&& self.len_bytes.index < w.len()
        &&& forall|i: int| 0 <= i < 4 ==> (#[trigger] self.digest@[i]).index < w.len()
        &&& forall|i: int|
            0 <= i < self.message@.len() ==> (#[trigger] self.message@[i]).index < w.len()
        &&& forall|i: int|
            0 <= i < self.padded_message@.len() ==> (#[trigger] self.padded_message@[i]).index
                < w.len()
    }

    /// Whether the length, the message and the digest stand on their wires, and the padding on its
    /// own.
    pub open spec fn carries(&self, w: Seq<u64>, bytes: Seq<u8>, digest: Seq<u8>) -> bool {
        &&& val(w, self.len_bytes) == bytes.len()
        &&& forall|i: int|
            0 <= i && 8 * i < bytes.len() ==> val(w, #[trigger] self.message@[i]) == packed_word(
                bytes,
                i,
            )
        &&& vals(w, self.padded_message@) == padded_words(bytes, self.n_blocks as int)
        &&& vals(w, self.digest@) == packed_words(digest)
    }

    /// Whether all wires of the circuit's interface have the values that they are given.
    pub open spec fn wires_given(&self, b: CircuitBuilder) -> bool {
        &&& b.is_given(self.len_bytes)
        &&& forall|i: int| 0 <= i < 4 ==> b.is_given(#[trigger] self.digest@[i])
        &&& forall|i: int| 0 <= i < self.message@.len() ==> b.is_given(#[trigger] self.message@[i])
        &&& forall|i: int|
            0 <= i < self.padded_message@.len() ==> b.is_given(#[trigger] self.padded_message@[i])
    }

    /// An assignment, with the length, the message and the digest on their wires.
    pub open spec fn populated(&self, w: Seq<u64>, bytes: Seq<u8>, digest: Seq<u8>) -> Seq<u64> {
        with_words(
            with_words(
                with_words(
                    w.update(self.len_bytes.index as int, bytes.len() as u64),
                    self.message@,
                    packed_words(bytes),
                ),
                self.padded_message@,
                padded_words(bytes, self.n_blocks as int),
            ),
            self.digest@,
            packed_words(digest),
        )
    }
}

/// What the circuit accepts as a digest is the Keccak-256 digest of the claimed number of bytes of
/// the message, whatever else stands on the wires.
pub proof fn law_accepted_digest(keccak: Keccak256, w: Seq<u64>)
    requires
        keccak.wf(),
        keccak.accepts(w),
    ensures
        val(w, keccak.len_bytes) <= 8 * keccak.message@.len(),
        vals(w, keccak.digest@) == keccak_256(
            message_bytes(vals(w, keccak.message@), val(w, keccak.len_bytes) as int),
        ),
{
    law_keccak_sound(
        val(w, keccak.len_bytes),
        vals(w, keccak.digest@),
        vals(w, keccak.message@),
        vals(w, keccak.padded_message@),
    );
}

/// An assignment that follows the gates and meets what the circuit added to a builder has, on the
/// wires of the digest, the Keccak-256 digest of the claimed number of bytes of the message. What
/// the builder asserted before has no part in that.
pub proof fn law_added_circuit_is_sound(
    keccak: Keccak256,
    before: CircuitBuilder,
    after: CircuitBuilder,
    w: Seq<u64>,
)
    requires
        keccak.wf(),
        keccak.added_to(before, after),
        after.computed(w),
        after.adds(before, w),
    ensures
        val(w, keccak.len_bytes) <= 8 * keccak.message@.len(),
        vals(w, keccak.digest@) == keccak_256(
            message_bytes(vals(w, keccak.message@), val(w, keccak.len_bytes) as int),
        ),
{
    law_accepted_digest(keccak, w);
}

/// Under an assignment in which a message that fits stands on the wires with its length and its
/// padding, the circuit accepts the message's Keccak-256 digest and no other.
pub proof fn law_message_on_the_wires(keccak: Keccak256, w: Seq<u64>, bytes: Seq<u8>)
    requires
        keccak.wf(),
        bytes.len() <= 8 * keccak.message@.len(),
        val(w, keccak.len_bytes) == bytes.len(),
        forall|i: int|
            0 <= i && 8 * i < bytes.len() ==> val(w, #[trigger] keccak.message@[i]) == packed_word(
                bytes,
                i,
            ),
        vals(w, keccak.padded_message@) == padded_words(bytes, keccak.n_blocks as int),
    ensures
        keccak.accepts(w) <==> vals(w, keccak.digest@) == keccak_256(bytes),
{
    let message = vals(w, keccak.message@);
    assert forall|i: int| 0 <= i && 8 * i < bytes.len() implies #[trigger] message[i]
        == packed_word(bytes, i) by {
        assert(message[i] == val(w, keccak.message@[i]));
    }
    law_keccak_complete(
        bytes,
        vals(w, keccak.digest@),
        message,
        vals(w, keccak.padded_message@),
        keccak.n_blocks as int,
    );
}

/// Where no two wires of the interface are the same, what is populated stands on them.
pub proof fn law_populated_stands(
    keccak: Keccak256,
    w: Seq<u64>,
    bytes: Seq<u8>,
    digest: Seq<u8>,
)
    requires
        keccak.wf(),
        keccak.wires_distinct(),
        keccak.wires_in(w),
        bytes.len() <= 8 * keccak.message@.len(),
        digest.len() == 32,
    ensures
        keccak.carries(keccak.populated(w, bytes, digest), bytes, digest),
{
    let w1 = w.update(keccak.len_bytes.index as int, bytes.len() as u64);
    let packed = packed_words(bytes);
    let padded = padded_words(bytes, keccak.n_blocks as int);
    let words = packed_words(digest);
    let w2 = with_words(w1, keccak.message@, packed);
    let w3 = with_words(w2, keccak.padded_message@, padded);
    let w4 = with_words(w3, keccak.digest@, words);
    lemma_with_words(w1, keccak.message@, packed);
    assert forall|i: int, j: int| 0 <= i < j < keccak.padded_message@.len() implies (
    #[trigger] keccak.padded_message@[i]).index != (#[trigger] keccak.padded_message@[j]).index by {}
    lemma_with_words(w2, keccak.padded_message@, padded);
    lemma_with_words(w3, keccak.digest@, words);
    let at = keccak.len_bytes.index as int;
    assert(w2[at] == w1[at]);
    assert(w3[at] == w2[at]);
    assert(w4[at] == w3[at]);
    assert forall|i: int| 0 <= i && 8 * i < bytes.len() implies val(
        w4,
        #[trigger] keccak.message@[i],
    ) == packed_word(bytes, i) by {
        let k = keccak.message@[i].index as int;
        assert(val(w2, keccak.message@[i]) == packed[i]);
        assert(w3[k] == w2[k]);
        assert(w4[k] == w3[k]);
    }
    assert(vals(w4, keccak.padded_message@) =~= padded) by {
        assert forall|i: int| 0 <= i < padded.len() implies #[trigger] vals(
            w4,
            keccak.padded_message@,
        )[i] == padded[i] by {
            let k = keccak.padded_message@[i].index as int;
            assert(val(w3, keccak.padded_message@[i]) == padded[i]);
            assert(w4[k] == w3[k]);
        }
    }
    assert(vals(w4, keccak.digest@) =~= words) by {
        assert forall|i: int| 0 <= i < 4 implies #[trigger] vals(w4, keccak.digest@)[i]
            == words[i] by {
            assert(val(w4, keccak.digest@[i]) == words[i]);
        }
    }
}

/// A populated assignment is accepted with the Keccak-256 digest of the message, and with no other
/// digest.
pub proof fn law_populated_is_accepted(
    keccak: Keccak256,
    w: Seq<u64>,
    bytes: Seq<u8>,
    digest: Seq<u8>,
)
    requires
        keccak.wf(),
        bytes.len() <= 8 * keccak.message@.len(),
        keccak.carries(keccak.populated(w, bytes, digest), bytes, digest),
    ensures
        keccak.accepts(keccak.populated(w, bytes, digest)) <==> packed_words(digest) == keccak_256(
            bytes,
        ),
{
    law_message_on_the_wires(keccak, keccak.populated(w, bytes, digest), bytes);
}

/// From the message to the witness: once the length, the message and a digest are populated and the
/// other wires are computed from them, what the circuit added to a builder holds with the
/// Keccak-256 digest of the message and with no other. All that is asserted holds if that does, and
/// what was asserted before the circuit and what was added behind it.
pub proof fn law_witness_is_accepted(
    keccak: Keccak256,
    before: CircuitBuilder,
    after: CircuitBuilder,
    circuit: CircuitBuilder,
    given: Seq<u64>,
    w: Seq<u64>,
    bytes: Seq<u8>,
    digest: Seq<u8>,
)
    requires
        keccak.wf(),
        keccak.added_to(before, after),
        circuit.extends(after),
        keccak.wires_given(circuit),
        bytes.len() <= 8 * keccak.message@.len(),
        keccak.carries(keccak.populated(given, bytes, digest), bytes, digest),
        circuit.fills(keccak.populated(given, bytes, digest), w),
    ensures
        after.adds(before, w) <==> packed_words(digest) == keccak_256(bytes),
        circuit.asserted(w) <==> before.asserted(w) && packed_words(digest) == keccak_256(bytes)
            && circuit.adds(after, w),
{
    let v = keccak.populated(given, bytes, digest);
    assert(circuit.is_given(keccak.len_bytes));
    assert forall|i: int| 0 <= i && 8 * i < bytes.len() implies val(
        w,
        #[trigger] keccak.message@[i],
    ) == packed_word(bytes, i) by {
        assert(circuit.is_given(keccak.message@[i]));
        assert(val(v, keccak.message@[i]) == packed_word(bytes, i));
    }
    assert(vals(w, keccak.padded_message@) =~= vals(v, keccak.padded_message@)) by {
        assert forall|i: int| 0 <= i < keccak.padded_message@.len() implies #[trigger] vals(
            w,
            keccak.padded_message@,
        )[i] == vals(v, keccak.padded_message@)[i] by {
            assert(circuit.is_given(keccak.padded_message@[i]));
        }
    }
    assert(vals(w, keccak.digest@) =~= vals(v, keccak.digest@)) by {
        assert forall|i: int| 0 <= i < 4 implies #[trigger] vals(w, keccak.digest@)[i] == vals(
            v,
            keccak.digest@,
        )[i] by {
            assert(circuit.is_given(keccak.digest@[i]));
        }
    }
    law_message_on_the_wires(keccak, w, bytes);
    assert(after.computed(w));
    lemma_asserted(after, before, w);
    lemma_asserted(circuit, after, w);
}

} // verus!
