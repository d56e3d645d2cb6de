//! A change of one byte, anywhere in what a compilation starts from, changes the digest.

use vstd::prelude::*;

use crate::compile_cache::checksum::OFFSET_BASIS;
use crate::compile_cache::digest::{
    body_words, fnv_words, gate_words, gates_words, kind_words, kinds_words,
    law_digest_detects_a_byte, lemma_word_bytes_at, options_words, state_digest, state_words,
    wires_words, word_bytes, Options,
};
use crate::compile_cache::wire_set::ascending_wires;
use crate::ir::{Gate, GateBody, GateGraph, WireKind};
use crate::serialization::little_endian::le_bytes;

verus! {

/// The bytes of a word are what is left of it after a shift by as many bits.
pub proof fn lemma_shifted(u: u64)
    ensures
        le_bytes(u as nat, 8) == seq![
            (u & 0xff) as u8,
            (u >> 8 & 0xff) as u8,
            (u >> 16 & 0xff) as u8,
            (u >> 24 & 0xff) as u8,
            (u >> 32 & 0xff) as u8,
            (u >> 40 & 0xff) as u8,
            (u >> 48 & 0xff) as u8,
            (u >> 56 & 0xff) as u8,
        ],
{
    assert(u & 0xff == u % 256 && u >> 8 == u / 256 && u >> 8 & 0xff == (u >> 8) % 256 && u >> 16
        == (u >> 8) / 256 && u >> 16 & 0xff == (u >> 16) % 256 && u >> 24 == (u >> 16) / 256
        && u >> 24 & 0xff == (u >> 24) % 256 && u >> 32 == (u >> 24) / 256 && u >> 32 & 0xff == (u
        >> 32) % 256 && u >> 40 == (u >> 32) / 256 && u >> 40 & 0xff == (u >> 40) % 256 && u >> 48
        == (u >> 40) / 256 && u >> 48 & 0xff == (u >> 48) % 256 && u >> 56 == (u >> 48) / 256
        && u >> 56 & 0xff == (u >> 56) % 256) by (bit_vector);
    reveal_with_fuel(le_bytes, 9);
    assert(le_bytes(u as nat, 8) =~= seq![
        (u & 0xff) as u8,
        (u >> 8 & 0xff) as u8,
        (u >> 16 & 0xff) as u8,
        (u >> 24 & 0xff) as u8,
        (u >> 32 & 0xff) as u8,
        (u >> 40 & 0xff) as u8,
        (u >> 48 & 0xff) as u8,
        (u >> 56 & 0xff) as u8,
    ]);
}

/// A flip inside one byte changes that byte and no other.
proof fn lemma_flipped(u: u64, v: u64, flip: u8, bits: u64, j: int)
    requires
        flip != 0,
        bits < 64,
        bits % 8 == 0,
        v == u ^ ((flip as u64) << bits),
        0 <= j < 8,
    ensures
        le_bytes(u as nat, 8)[j] == le_bytes(v as nat, 8)[j] <==> bits != 8 * j,
{
    let f = flip as u64;
    lemma_shifted(u);
    lemma_shifted(v);
    assert((u & 0xff == v & 0xff <==> bits != 0) && (u >> 8 & 0xff == v >> 8 & 0xff <==> bits != 8)
        && (u >> 16 & 0xff == v >> 16 & 0xff <==> bits != 16) && (u >> 24 & 0xff == v >> 24 & 0xff
        <==> bits != 24) && (u >> 32 & 0xff == v >> 32 & 0xff <==> bits != 32) && (u >> 40 & 0xff
        == v >> 40 & 0xff <==> bits != 40) && (u >> 48 & 0xff == v >> 48 & 0xff <==> bits != 48)
        && (u >> 56 & 0xff == v >> 56 & 0xff <==> bits != 56) && u & 0xff < 256 && v & 0xff < 256
        && u >> 8 & 0xff < 256 && v >> 8 & 0xff < 256 && u >> 16 & 0xff < 256 && v >> 16 & 0xff
        < 256 && u >> 24 & 0xff < 256 && v >> 24 & 0xff < 256 && u >> 32 & 0xff < 256 && v >> 32
        & 0xff < 256 && u >> 40 & 0xff < 256 && v >> 40 & 0xff < 256 && u >> 48 & 0xff < 256 && v
        >> 48 & 0xff < 256 && u >> 56 & 0xff < 256 && v >> 56 & 0xff < 256) by (bit_vector)
        requires
            f != 0,
            f < 256,
            bits < 64,
            bits % 8 == 0,
            v == u ^ (f << bits),
    ;
}

/// Whether words differ in one place, and there by a flip of bits.
spec fn flipped(x: Seq<u64>, y: Seq<u64>, at: int, flip: u8, bits: u64) -> bool {
    &&& x.len() == y.len()
    &&& 0 <= at < x.len()
    &&& y[at] == x[at] ^ ((flip as u64) << bits)
    &&& forall|i: int| 0 <= i < x.len() && i != at ==> #[trigger] x[i] == y[i]
}

proof fn lemma_flipped_between(
    a: Seq<u64>,
    x: Seq<u64>,
    y: Seq<u64>,
    b: Seq<u64>,
    at: int,
    flip: u8,
    bits: u64,
)
    requires
        flipped(x, y, at, flip, bits),
    ensures
        flipped(a + x, a + y, a.len() + at, flip, bits),
        flipped(x + b, y + b, at, flip, bits),
{
    assert forall|i: int| 0 <= i < (a + x).len() && i != a.len() + at implies #[trigger] (a + x)[i]
        == (a + y)[i] by {
        if i >= a.len() {
            assert(x[i - a.len()] == y[i - a.len()]);
        }
    }
}

/// Words that differ by a flip inside one byte have different digests.
proof fn lemma_flip_is_detected(h: u64, x: Seq<u64>, y: Seq<u64>, at: int, flip: u8, bits: u64)
    requires
        flipped(x, y, at, flip, bits),
        flip != 0,
        bits < 64,
        bits % 8 == 0,
    ensures
        fnv_words(h, x) != fnv_words(h, y),
{
    let s = word_bytes(x);
    let t = word_bytes(y);
    let byte = 8 * at + bits / 8;
    lemma_word_bytes_at(x, at, bits as int / 8);
    lemma_word_bytes_at(y, at, bits as int / 8);
    lemma_flipped(x[at], y[at], flip, bits, bits as int / 8);
    assert forall|j: int| 0 <= j < s.len() && j != byte implies #[trigger] s[j] == t[j] by {
        let i = j / 8;
        let k = j % 8;
        lemma_word_bytes_at(x, i, k);
        lemma_word_bytes_at(y, i, k);
        if i == at {
            lemma_flipped(x[at], y[at], flip, bits, k);
        } else {
            assert(x[i] == y[i]);
        }
    }
    law_digest_detects_a_byte(h, s, t, byte);
}

/// Numbers of one byte differ by a flip of the lowest byte.
proof fn lemma_small_flip(u: u64, v: u64) -> (flip: u8)
    requires
        u < 256,
        v < 256,
        u != v,
    ensures
        flip != 0,
        v == u ^ ((flip as u64) << 0u64),
{
    assert(u ^ v < 256 && u ^ v != 0 && v == u ^ ((u ^ v) << 0u64)) by (bit_vector)
        requires
            u < 256,
            v < 256,
            u != v,
    ;
    (u ^ v) as u8
}

/// Gates that are the same make the same words.
proof fn lemma_equal_gates(a: Seq<Gate>, b: Seq<Gate>)
    requires
        a.len() == b.len(),
        forall|g: int|
            0 <= g < a.len() ==> {
                let x = #[trigger] a[g];
                let y = b[g];
                &&& x.origin == y.origin
                &&& x.assertion_name == y.assertion_name
                &&& x.data.body == y.data.body
                &&& x.data.wires@ == y.data.wires@
                &&& x.data.immediates@ == y.data.immediates@
                &&& x.data.dimensions@ == y.data.dimensions@
            },
    ensures
        gates_words(a) == gates_words(b),
    decreases a.len(),
{
    if a.len() > 0 {
        let c = a.skip(1);
        let d = b.skip(1);
        assert forall|g: int| 0 <= g < c.len() implies {
            let x = #[trigger] c[g];
            let y = d[g];
                &&& x.origin == y.origin
                &&& x.assertion_name == y.assertion_name
                &&& x.data.body == y.data.body
                &&& x.data.wires@ == y.data.wires@
                &&& x.data.immediates@ == y.data.immediates@
                &&& x.data.dimensions@ == y.data.dimensions@
        } by {
            assert(a[g + 1] == c[g]);
        }
        lemma_equal_gates(c, d);
        assert(gate_words(a[0]) == gate_words(b[0]));
    }
}

/// Where one gate's words differ by a flip and the other gates are the same, all words do.
proof fn lemma_gates_flipped(
    a: Seq<Gate>,
    b: Seq<Gate>,
    g: int,
    at: int,
    flip: u8,
    bits: u64,
) -> (all_at: int)
    requires
        a.len() == b.len(),
        0 <= g < a.len(),
        flipped(gate_words(a[g]), gate_words(b[g]), at, flip, bits),
        forall|i: int|
            0 <= i < a.len() && i != g ==> {
                let x = #[trigger] a[i];
                let y = b[i];
                &&& x.origin == y.origin
                &&& x.assertion_name == y.assertion_name
                &&& x.data.body == y.data.body
                &&& x.data.wires@ == y.data.wires@
                &&& x.data.immediates@ == y.data.immediates@
                &&& x.data.dimensions@ == y.data.dimensions@
            },
    ensures
        flipped(gates_words(a), gates_words(b), all_at, flip, bits),
    decreases a.len(),
{
    let c = a.skip(1);
    let d = b.skip(1);
    if g == 0 {
        assert forall|i: int| 0 <= i < c.len() implies {
            let x = #[trigger] c[i];
            let y = d[i];
                &&& x.origin == y.origin
                &&& x.assertion_name == y.assertion_name
                &&& x.data.body == y.data.body
                &&& x.data.wires@ == y.data.wires@
                &&& x.data.immediates@ == y.data.immediates@
                &&& x.data.dimensions@ == y.data.dimensions@
        } by {
            assert(a[i + 1] == c[i]);
        }
        lemma_equal_gates(c, d);
        lemma_flipped_between(
            Seq::empty(),
            gate_words(a[0]),
            gate_words(b[0]),
            gates_words(c),
            at,
            flip,
            bits,
        );
        at
    } else {
        assert forall|i: int| 0 <= i < c.len() && i != g - 1 implies {
            let x = #[trigger] c[i];
            let y = d[i];
                &&& x.origin == y.origin
                &&& x.assertion_name == y.assertion_name
                &&& x.data.body == y.data.body
                &&& x.data.wires@ == y.data.wires@
                &&& x.data.immediates@ == y.data.immediates@
                &&& x.data.dimensions@ == y.data.dimensions@
        } by {
            assert(a[i + 1] == c[i]);
        }
        let rest = lemma_gates_flipped(c, d, g - 1, at, flip, bits);
        assert(gate_words(a[0]) == gate_words(b[0]));
        lemma_flipped_between(
            gate_words(a[0]),
            gates_words(c),
            gates_words(d),
            Seq::empty(),
            rest,
            flip,
            bits,
        );
        gate_words(a[0]).len() + rest
    }
}

/// Where one gate's words differ by a flip and nothing else differs, the digests do.
proof fn lemma_gate_flip_is_detected(
    a: GateGraph,
    b: GateGraph,
    opts: Options,
    force_committed: Set<usize>,
    g: int,
    at: int,
    flip: u8,
    bits: u64,
)
    requires
        a.wires@ == b.wires@,
        a.gates@.len() == b.gates@.len(),
        0 <= g < a.gates@.len(),
        flipped(gate_words(a.gates@[g]), gate_words(b.gates@[g]), at, flip, bits),
        forall|i: int|
            0 <= i < a.gates@.len() && i != g ==> {
                let x = #[trigger] a.gates@[i];
                let y = b.gates@[i];
                &&& x.origin == y.origin
                &&& x.assertion_name == y.assertion_name
                &&& x.data.body == y.data.body
                &&& x.data.wires@ == y.data.wires@
                &&& x.data.immediates@ == y.data.immediates@
                &&& x.data.dimensions@ == y.data.dimensions@
            },
        flip != 0,
        bits < 64,
        bits % 8 == 0,
    ensures
        state_digest(a, opts, force_committed) != state_digest(b, opts, force_committed),
{
    let i = lemma_gates_flipped(a.gates@, b.gates@, g, at, flip, bits);
    let x = gates_words(a.gates@);
    let y = gates_words(b.gates@);
    let n = seq![a.gates@.len() as u64];
    let k = seq![a.wires@.len() as u64] + kinds_words(a.wires@);
    let w = wires_words(ascending_wires(force_committed));
    let o = options_words(opts);
    let none = Seq::<u64>::empty();
    lemma_flipped_between(n, x, y, none, i, flip, bits);
    lemma_flipped_between(k, n + x, n + y, none, 1 + i, flip, bits);
    lemma_flipped_between(w, k + (n + x), k + (n + y), none, k.len() + (1 + i), flip, bits);
    let j = w.len() + (k.len() + (1 + i));
    lemma_flipped_between(o, w + (k + (n + x)), w + (k + (n + y)), none, j, flip, bits);
    assert(state_words(a, opts, force_committed) == o + (w + (k + (n + x))));
    assert(state_words(b, opts, force_committed) == o + (w + (k + (n + y))));
    lemma_flip_is_detected(
        OFFSET_BASIS,
        state_words(a, opts, force_committed),
        state_words(b, opts, force_committed),
        o.len() + j,
        flip,
        bits,
    );
}

/// Where the words of a gate stand.
proof fn lemma_gate_words(gate: Gate, j: int)
    ensures
        ({
            let words = gate_words(gate);
            let w = gate.data.wires@.len() as int;
            let m = gate.data.immediates@.len() as int;
            let d = gate.data.dimensions@.len() as int;
            &&& words.len() == 7 + w + m + d
            &&& words[0] == gate.origin as u64
            &&& words[1] == gate.assertion_name as u64
            &&& words[2] == body_words(gate.data.body)[0]
            &&& words[3] == body_words(gate.data.body)[1]
            &&& words[4] == w as u64
            &&& 0 <= j < w ==> words[5 + j] == gate.data.wires@[j].index as u64
            &&& words[5 + w] == m as u64
            &&& 0 <= j < m ==> words[6 + w + j] == gate.data.immediates@[j] as u64
            &&& words[6 + w + m] == d as u64
            &&& 0 <= j < d ==> words[7 + w + m + j] == gate.data.dimensions@[j] as u64
        }),
{
}

/// Words that make up a gate are its words.
pub proof fn lemma_all_gate_words(gate: Gate, words: Seq<u64>)
    requires
        ({
            let w = gate.data.wires@.len() as int;
            let m = gate.data.immediates@.len() as int;
            let d = gate.data.dimensions@.len() as int;
            &&& words.len() == 7 + w + m + d
            &&& words[0] == gate.origin as u64
            &&& words[1] == gate.assertion_name as u64
            &&& words[2] == body_words(gate.data.body)[0]
            &&& words[3] == body_words(gate.data.body)[1]
            &&& words[4] == w as u64
            &&& forall|j: int|
                0 <= j < w ==> words[5 + j] == (#[trigger] gate.data.wires@[j]).index as u64
            &&& words[5 + w] == m as u64
            &&& forall|j: int|
                0 <= j < m ==> words[6 + w + j] == (#[trigger] gate.data.immediates@[j]) as u64
            &&& words[6 + w + m] == d as u64
            &&& forall|j: int|
                0 <= j < d ==> words[7 + w + m + j] == (#[trigger] gate.data.dimensions@[j]) as u64
        }),
    ensures
        words == gate_words(gate),
{
    let w = gate.data.wires@.len() as int;
    let m = gate.data.immediates@.len() as int;
    assert forall|i: int| 0 <= i < words.len() implies words[i] == gate_words(gate)[i] by {
        if 5 <= i < 5 + w {
            lemma_gate_words(gate, i - 5);
            assert(gate.data.wires@[i - 5].index as u64 == words[5 + (i - 5)]);
        } else if 6 + w <= i < 6 + w + m {
            lemma_gate_words(gate, i - 6 - w);
            assert(gate.data.immediates@[i - 6 - w] as u64 == words[6 + w + (i - 6 - w)]);
        } else if 7 + w + m <= i {
            lemma_gate_words(gate, i - 7 - w - m);
            assert(gate.data.dimensions@[i - 7 - w - m] as u64 == words[7 + w + m + (i - 7 - w
                - m)]);
        } else {
            lemma_gate_words(gate, 0);
        }
    }
    lemma_gate_words(gate, 0);
    assert(words =~= gate_words(gate));
}

/// Two states that differ in one byte of the number of the path of one gate's subcircuit, whichever gate it is, have different
/// digests.
pub proof fn law_digest_detects_a_path(
    a: GateGraph,
    b: GateGraph,
    opts: Options,
    force_committed: Set<usize>,
    g: int,
    flip: u8,
    bits: u64,
)
    requires
        a.wires@ == b.wires@,
        a.gates@.len() == b.gates@.len(),
        0 <= g < a.gates@.len(),
        forall|i: int|
            0 <= i < a.gates@.len() && i != g ==> {
                let x = #[trigger] a.gates@[i];
                let y = b.gates@[i];
                &&& x.origin == y.origin
                &&& x.assertion_name == y.assertion_name
                &&& x.data.body == y.data.body
                &&& x.data.wires@ == y.data.wires@
                &&& x.data.immediates@ == y.data.immediates@
                &&& x.data.dimensions@ == y.data.dimensions@
            },
        ({
            let x = a.gates@[g];
            let y = b.gates@[g];
            &&& x.assertion_name == y.assertion_name
            &&& x.data.body == y.data.body
            &&& x.data.wires@ == y.data.wires@
            &&& x.data.immediates@ == y.data.immediates@
            &&& x.data.dimensions@ == y.data.dimensions@
            &&& y.origin as u64 == x.origin as u64 ^ ((flip as u64) << bits)
        }),
        flip != 0,
        bits < 64,
        bits % 8 == 0,
    ensures
        state_digest(a, opts, force_committed) != state_digest(b, opts, force_committed),
{
    let x = a.gates@[g];
    let y = b.gates@[g];
    let at = 0;
    let words = gate_words(y);
    assert(flipped(gate_words(x), words, at, flip, bits)) by {
        assert forall|i: int| 0 <= i < words.len() && i != at implies #[trigger] gate_words(x)[i]
            == words[i] by {
            lemma_same_word_of_gate(x, y, i);
        }
        lemma_gate_words(x, 0);
        lemma_gate_words(y, 0);
    }
    lemma_gate_flip_is_detected(a, b, opts, force_committed, g, at, flip, bits);
}

/// Two states that differ in one byte of the number of the path of one gate's assertion, whichever gate it is, have different
/// digests.
pub proof fn law_digest_detects_an_assertion_path(
    a: GateGraph,
    b: GateGraph,
    opts: Options,
    force_committed: Set<usize>,
    g: int,
    flip: u8,
    bits: u64,
)
    requires
        a.wires@ == b.wires@,
        a.gates@.len() == b.gates@.len(),
        0 <= g < a.gates@.len(),
        forall|i: int|
            0 <= i < a.gates@.len() && i != g ==> {
                let x = #[trigger] a.gates@[i];
                let y = b.gates@[i];
                &&& x.origin == y.origin
                &&& x.assertion_name == y.assertion_name
                &&& x.data.body == y.data.body
                &&& x.data.wires@ == y.data.wires@
                &&& x.data.immediates@ == y.data.immediates@
                &&& x.data.dimensions@ == y.data.dimensions@
            },
        ({
            let x = a.gates@[g];
            let y = b.gates@[g];
            &&& x.origin == y.origin
            &&& x.data.body == y.data.body
            &&& x.data.wires@ == y.data.wires@
            &&& x.data.immediates@ == y.data.immediates@
            &&& x.data.dimensions@ == y.data.dimensions@
            &&& y.assertion_name as u64 == x.assertion_name as u64 ^ ((flip as u64) << bits)
        }),
        flip != 0,
        bits < 64,
        bits % 8 == 0,
    ensures
        state_digest(a, opts, force_committed) != state_digest(b, opts, force_committed),
{
    let x = a.gates@[g];
    let y = b.gates@[g];
    let at = 1;
    let words = gate_words(y);
    assert(flipped(gate_words(x), words, at, flip, bits)) by {
        assert forall|i: int| 0 <= i < words.len() && i != at implies #[trigger] gate_words(x)[i]
            == words[i] by {
            lemma_same_word_of_gate(x, y, i);
        }
        lemma_gate_words(x, 0);
        lemma_gate_words(y, 0);
    }
    lemma_gate_flip_is_detected(a, b, opts, force_committed, g, at, flip, bits);
}

/// Two states that differ in one byte of the number of one gate's hint, whichever gate it is, have different
/// digests.
pub proof fn law_digest_detects_a_hint(
    a: GateGraph,
    b: GateGraph,
    opts: Options,
    force_committed: Set<usize>,
    g: int,
    flip: u8,
    bits: u64,
)
    requires
        a.wires@ == b.wires@,
        a.gates@.len() == b.gates@.len(),
        0 <= g < a.gates@.len(),
        forall|i: int|
            0 <= i < a.gates@.len() && i != g ==> {
                let x = #[trigger] a.gates@[i];
                let y = b.gates@[i];
                &&& x.origin == y.origin
                &&& x.assertion_name == y.assertion_name
                &&& x.data.body == y.data.body
                &&& x.data.wires@ == y.data.wires@
                &&& x.data.immediates@ == y.data.immediates@
                &&& x.data.dimensions@ == y.data.dimensions@
            },
        ({
            let x = a.gates@[g];
            let y = b.gates@[g];
            &&& x.origin == y.origin
            &&& x.assertion_name == y.assertion_name
            &&& x.data.wires@ == y.data.wires@
            &&& x.data.immediates@ == y.data.immediates@
            &&& x.data.dimensions@ == y.data.dimensions@
            &&& x.data.body matches GateBody::Hint(m) && y.data.body matches GateBody::Hint(n)
                && n as u64 == m as u64 ^ ((flip as u64) << bits)
        }),
        flip != 0,
        bits < 64,
        bits % 8 == 0,
    ensures
        state_digest(a, opts, force_committed) != state_digest(b, opts, force_committed),
{
    let x = a.gates@[g];
    let y = b.gates@[g];
    let at = 3;
    let words = gate_words(y);
    assert(flipped(gate_words(x), words, at, flip, bits)) by {
        assert forall|i: int| 0 <= i < words.len() && i != at implies #[trigger] gate_words(x)[i]
            == words[i] by {
            lemma_same_word_of_gate(x, y, i);
        }
        lemma_gate_words(x, 0);
        lemma_gate_words(y, 0);
    }
    lemma_gate_flip_is_detected(a, b, opts, force_committed, g, at, flip, bits);
}

/// Two states that differ in one byte of the index of one wire of one gate, whichever gate it is, have different
/// digests.
pub proof fn law_digest_detects_a_wire(
    a: GateGraph,
    b: GateGraph,
    opts: Options,
    force_committed: Set<usize>,
    g: int,
    j: int,
    flip: u8,
    bits: u64,
)
    requires
        a.wires@ == b.wires@,
        a.gates@.len() == b.gates@.len(),
        0 <= g < a.gates@.len(),
        forall|i: int|
            0 <= i < a.gates@.len() && i != g ==> {
                let x = #[trigger] a.gates@[i];
                let y = b.gates@[i];
                &&& x.origin == y.origin
                &&& x.assertion_name == y.assertion_name
                &&& x.data.body == y.data.body
                &&& x.data.wires@ == y.data.wires@
                &&& x.data.immediates@ == y.data.immediates@
                &&& x.data.dimensions@ == y.data.dimensions@
            },
        ({
            let x = a.gates@[g];
            let y = b.gates@[g];
            &&& x.origin == y.origin
            &&& x.assertion_name == y.assertion_name
            &&& x.data.body == y.data.body
            &&& x.data.immediates@ == y.data.immediates@
            &&& x.data.dimensions@ == y.data.dimensions@
            &&& 0 <= j < x.data.wires@.len() && y.data.wires@.len() == x.data.wires@.len()
                && y.data.wires@[j].index as u64
                == x.data.wires@[j].index as u64 ^ ((flip as u64) << bits)
                && (forall|i: int| 0 <= i < x.data.wires@.len() && i != j ==>
                #[trigger] x.data.wires@[i] == y.data.wires@[i])
        }),
        flip != 0,
        bits < 64,
        bits % 8 == 0,
    ensures
        state_digest(a, opts, force_committed) != state_digest(b, opts, force_committed),
{
    let x = a.gates@[g];
    let y = b.gates@[g];
    let at = 5 + j;
    let words = gate_words(y);
    assert(flipped(gate_words(x), words, at, flip, bits)) by {
        assert forall|i: int| 0 <= i < words.len() && i != at implies #[trigger] gate_words(x)[i]
            == words[i] by {
            lemma_same_word_of_gate(x, y, i);
        }
        lemma_gate_words(x, j);
        lemma_gate_words(y, j);
    }
    lemma_gate_flip_is_detected(a, b, opts, force_committed, g, at, flip, bits);
}

/// Two states that differ in one byte of one immediate of one gate, whichever gate it is, have different
/// digests.
pub proof fn law_digest_detects_an_immediate(
    a: GateGraph,
    b: GateGraph,
    opts: Options,
    force_committed: Set<usize>,
    g: int,
    j: int,
    flip: u8,
    bits: u64,
)
    requires
        a.wires@ == b.wires@,
        a.gates@.len() == b.gates@.len(),
        0 <= g < a.gates@.len(),
        forall|i: int|
            0 <= i < a.gates@.len() && i != g ==> {
                let x = #[trigger] a.gates@[i];
                let y = b.gates@[i];
                &&& x.origin == y.origin
                &&& x.assertion_name == y.assertion_name
                &&& x.data.body == y.data.body
                &&& x.data.wires@ == y.data.wires@
                &&& x.data.immediates@ == y.data.immediates@
                &&& x.data.dimensions@ == y.data.dimensions@
            },
        ({
            let x = a.gates@[g];
            let y = b.gates@[g];
            &&& x.origin == y.origin
            &&& x.assertion_name == y.assertion_name
            &&& x.data.body == y.data.body
            &&& x.data.wires@ == y.data.wires@
            &&& x.data.dimensions@ == y.data.dimensions@
            &&& 0 <= j < x.data.immediates@.len() && y.data.immediates@.len()
                == x.data.immediates@.len() && y.data.immediates@[j] as u64
                == x.data.immediates@[j] as u64 ^ ((flip as u64) << bits)
                && (forall|i: int| 0 <= i < x.data.immediates@.len() && i != j ==>
                #[trigger] x.data.immediates@[i] == y.data.immediates@[i])
        }),
        flip != 0,
        bits < 64,
        bits % 8 == 0,
    ensures
        state_digest(a, opts, force_committed) != state_digest(b, opts, force_committed),
{
    let x = a.gates@[g];
    let y = b.gates@[g];
    let at = 6 + x.data.wires@.len() + j;
    let words = gate_words(y);
    assert(flipped(gate_words(x), words, at, flip, bits)) by {
        assert forall|i: int| 0 <= i < words.len() && i != at implies #[trigger] gate_words(x)[i]
            == words[i] by {
            lemma_same_word_of_gate(x, y, i);
        }
        lemma_gate_words(x, j);
        lemma_gate_words(y, j);
    }
    lemma_gate_flip_is_detected(a, b, opts, force_committed, g, at, flip, bits);
}

/// Two states that differ in one byte of one dimension of one gate, whichever gate it is, have different
/// digests.
pub proof fn law_digest_detects_a_dimension(
    a: GateGraph,
    b: GateGraph,
    opts: Options,
    force_committed: Set<usize>,
    g: int,
    j: int,
    flip: u8,
    bits: u64,
)
    requires
        a.wires@ == b.wires@,
        a.gates@.len() == b.gates@.len(),
        0 <= g < a.gates@.len(),
        forall|i: int|
            0 <= i < a.gates@.len() && i != g ==> {
                let x = #[trigger] a.gates@[i];
                let y = b.gates@[i];
                &&& x.origin == y.origin
                &&& x.assertion_name == y.assertion_name
                &&& x.data.body == y.data.body
                &&& x.data.wires@ == y.data.wires@
                &&& x.data.immediates@ == y.data.immediates@
                &&& x.data.dimensions@ == y.data.dimensions@
            },
        ({
            let x = a.gates@[g];
            let y = b.gates@[g];
            &&& x.origin == y.origin
            &&& x.assertion_name == y.assertion_name
            &&& x.data.body == y.data.body
            &&& x.data.wires@ == y.data.wires@
            &&& x.data.immediates@ == y.data.immediates@
            &&& 0 <= j < x.data.dimensions@.len() && y.data.dimensions@.len()
                == x.data.dimensions@.len() && y.data.dimensions@[j] as u64
                == x.data.dimensions@[j] as u64 ^ ((flip as u64) << bits)
                && (forall|i: int| 0 <= i < x.data.dimensions@.len() && i != j ==>
                #[trigger] x.data.dimensions@[i] == y.data.dimensions@[i])
        }),
        flip != 0,
        bits < 64,
        bits % 8 == 0,
    ensures
        state_digest(a, opts, force_committed) != state_digest(b, opts, force_committed),
{
    let x = a.gates@[g];
    let y = b.gates@[g];
    let at = 7 + x.data.wires@.len() + x.data.immediates@.len() + j;
    let words = gate_words(y);
    assert(flipped(gate_words(x), words, at, flip, bits)) by {
        assert forall|i: int| 0 <= i < words.len() && i != at implies #[trigger] gate_words(x)[i]
            == words[i] by {
            lemma_same_word_of_gate(x, y, i);
        }
        lemma_gate_words(x, j);
        lemma_gate_words(y, j);
    }
    lemma_gate_flip_is_detected(a, b, opts, force_committed, g, at, flip, bits);
}

/// Gates with as many wires, immediates and dimensions have the same word in a place where they
/// hold the same.
proof fn lemma_same_word_of_gate(x: Gate, y: Gate, i: int)
    requires
        x.data.wires@.len() == y.data.wires@.len(),
        x.data.immediates@.len() == y.data.immediates@.len(),
        x.data.dimensions@.len() == y.data.dimensions@.len(),
        0 <= i < gate_words(x).len(),
        ({
            let w = x.data.wires@.len() as int;
            let m = x.data.immediates@.len() as int;
            &&& i == 0 ==> x.origin == y.origin
            &&& i == 1 ==> x.assertion_name == y.assertion_name
            &&& i == 2 ==> body_words(x.data.body)[0] == body_words(y.data.body)[0]
            &&& i == 3 ==> body_words(x.data.body)[1] == body_words(y.data.body)[1]
            &&& 5 <= i < 5 + w ==> x.data.wires@[i - 5] == y.data.wires@[i - 5]
            &&& 6 + w <= i < 6 + w + m ==> x.data.immediates@[i - 6 - w]
                == y.data.immediates@[i - 6 - w]
            &&& 7 + w + m <= i ==> x.data.dimensions@[i - 7 - w - m] == y.data.dimensions@[i - 7
                - w - m]
        }),
    ensures
        gate_words(x)[i] == gate_words(y)[i],
{
    let w = x.data.wires@.len() as int;
    let m = x.data.immediates@.len() as int;
    let j = if 5 <= i < 5 + w {
        i - 5
    } else if 6 + w <= i < 6 + w + m {
        i - 6 - w
    } else if 7 + w + m <= i {
        i - 7 - w - m
    } else {
        0
    };
    lemma_gate_words(x, j);
    lemma_gate_words(y, j);
}

/// Two states that differ in the operation of one gate, whichever gate it is, have different
/// digests.
pub proof fn law_digest_detects_an_operation(
    a: GateGraph,
    b: GateGraph,
    opts: Options,
    force_committed: Set<usize>,
    g: int,
)
    requires
        a.wires@ == b.wires@,
        a.gates@.len() == b.gates@.len(),
        0 <= g < a.gates@.len(),
        forall|i: int|
            0 <= i < a.gates@.len() && i != g ==> {
                let x = #[trigger] a.gates@[i];
                let y = b.gates@[i];
                &&& x.origin == y.origin
                &&& x.assertion_name == y.assertion_name
                &&& x.data.body == y.data.body
                &&& x.data.wires@ == y.data.wires@
                &&& x.data.immediates@ == y.data.immediates@
                &&& x.data.dimensions@ == y.data.dimensions@
            },
        ({
            let x = a.gates@[g];
            let y = b.gates@[g];
            &&& x.origin == y.origin
            &&& x.assertion_name == y.assertion_name
            &&& x.data.body is Op
            &&& y.data.body is Op
            &&& x.data.body != y.data.body
            &&& x.data.wires@ == y.data.wires@
            &&& x.data.immediates@ == y.data.immediates@
            &&& x.data.dimensions@ == y.data.dimensions@
        }),
    ensures
        state_digest(a, opts, force_committed) != state_digest(b, opts, force_committed),
{
    let x = a.gates@[g];
    let y = b.gates@[g];
    let u = body_words(x.data.body)[1];
    let v = body_words(y.data.body)[1];
    assert(u != v && u < 256 && v < 256);
    let flip = lemma_small_flip(u, v);
    assert(flipped(gate_words(x), gate_words(y), 3, flip, 0)) by {
        assert forall|i: int| 0 <= i < gate_words(x).len() && i != 3 implies #[trigger] gate_words(
            x,
        )[i] == gate_words(y)[i] by {
            lemma_same_word_of_gate(x, y, i);
        }
        lemma_gate_words(x, 0);
        lemma_gate_words(y, 0);
    }
    lemma_gate_flip_is_detected(a, b, opts, force_committed, g, 3, flip, 0);
}

/// Where one wire's words differ by a flip and the other wires are the same, all words do.
proof fn lemma_kinds_flipped(
    a: Seq<WireKind>,
    b: Seq<WireKind>,
    w: int,
    at: int,
    flip: u8,
    bits: u64,
) -> (all_at: int)
    requires
        a.len() == b.len(),
        0 <= w < a.len(),
        flipped(kind_words(a[w]), kind_words(b[w]), at, flip, bits),
        forall|i: int| 0 <= i < a.len() && i != w ==> #[trigger] a[i] == b[i],
    ensures
        flipped(kinds_words(a), kinds_words(b), all_at, flip, bits),
    decreases a.len(),
{
    let c = a.skip(1);
    let d = b.skip(1);
    if w == 0 {
        assert(c =~= d) by {
            assert forall|i: int| 0 <= i < c.len() implies c[i] == d[i] by {
                assert(a[i + 1] == b[i + 1]);
            }
        }
        lemma_flipped_between(
            Seq::empty(),
            kind_words(a[0]),
            kind_words(b[0]),
            kinds_words(c),
            at,
            flip,
            bits,
        );
        at
    } else {
        assert(a[0] == b[0]);
        assert forall|i: int| 0 <= i < c.len() && i != w - 1 implies #[trigger] c[i] == d[i] by {
            assert(a[i + 1] == b[i + 1]);
        }
        let rest = lemma_kinds_flipped(c, d, w - 1, at, flip, bits);
        lemma_flipped_between(
            kind_words(a[0]),
            kinds_words(c),
            kinds_words(d),
            Seq::empty(),
            rest,
            flip,
            bits,
        );
        kind_words(a[0]).len() + rest
    }
}

/// Where one wire's words differ by a flip and nothing else differs, the digests do.
proof fn lemma_kind_flip_is_detected(
    a: GateGraph,
    b: GateGraph,
    opts: Options,
    force_committed: Set<usize>,
    w: int,
    at: int,
    flip: u8,
    bits: u64,
)
    requires
        a.gates@ == b.gates@,
        a.wires@.len() == b.wires@.len(),
        0 <= w < a.wires@.len(),
        flipped(kind_words(a.wires@[w]), kind_words(b.wires@[w]), at, flip, bits),
        forall|i: int| 0 <= i < a.wires@.len() && i != w ==> #[trigger] a.wires@[i] == b.wires@[i],
        flip != 0,
        bits < 64,
        bits % 8 == 0,
    ensures
        state_digest(a, opts, force_committed) != state_digest(b, opts, force_committed),
{
    let i = lemma_kinds_flipped(a.wires@, b.wires@, w, at, flip, bits);
    let x = kinds_words(a.wires@);
    let y = kinds_words(b.wires@);
    let g = seq![a.gates@.len() as u64] + gates_words(a.gates@);
    let n = seq![a.wires@.len() as u64];
    let c = wires_words(ascending_wires(force_committed));
    let o = options_words(opts);
    let none = Seq::<u64>::empty();
    lemma_flipped_between(n, x, y, none, i, flip, bits);
    lemma_flipped_between(none, n + x, n + y, g, 1 + i, flip, bits);
    lemma_flipped_between(c, (n + x) + g, (n + y) + g, none, 1 + i, flip, bits);
    let j = c.len() + (1 + i);
    lemma_flipped_between(o, c + ((n + x) + g), c + ((n + y) + g), none, j, flip, bits);
    assert(state_words(a, opts, force_committed) == o + (c + ((n + x) + g)));
    assert(state_words(b, opts, force_committed) == o + (c + ((n + y) + g)));
    lemma_flip_is_detected(
        OFFSET_BASIS,
        state_words(a, opts, force_committed),
        state_words(b, opts, force_committed),
        o.len() + j,
        flip,
        bits,
    );
}

/// Two states that differ in one byte of one constant, whichever it is, have different digests.
pub proof fn law_digest_detects_a_constant(
    a: GateGraph,
    b: GateGraph,
    opts: Options,
    force_committed: Set<usize>,
    w: int,
    value: u64,
    flip: u8,
    bits: u64,
)
    requires
        a.gates@ == b.gates@,
        0 <= w < a.wires@.len(),
        a.wires@[w] == WireKind::Constant(value),
        b.wires@ == a.wires@.update(w, WireKind::Constant(value ^ ((flip as u64) << bits))),
        flip != 0,
        bits < 64,
        bits % 8 == 0,
    ensures
        state_digest(a, opts, force_committed) != state_digest(b, opts, force_committed),
{
    lemma_kind_flip_is_detected(a, b, opts, force_committed, w, 1, flip, bits);
}

/// Two states that differ in what kind one wire is that is no constant in either, have different
/// digests.
pub proof fn law_digest_detects_a_kind(
    a: GateGraph,
    b: GateGraph,
    opts: Options,
    force_committed: Set<usize>,
    w: int,
    kind: WireKind,
)
    requires
        a.gates@ == b.gates@,
        0 <= w < a.wires@.len(),
        !(a.wires@[w] is Constant),
        !(kind is Constant),
        kind != a.wires@[w],
        b.wires@ == a.wires@.update(w, kind),
    ensures
        state_digest(a, opts, force_committed) != state_digest(b, opts, force_committed),
{
    let flip = lemma_small_flip(kind_words(a.wires@[w])[0], kind_words(kind)[0]);
    lemma_kind_flip_is_detected(a, b, opts, force_committed, w, 0, flip, 0);
}

} // verus!
