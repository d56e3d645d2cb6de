//! The bytes of numbers, flags, text and lists, one by one, and what is read from which bytes.

use vstd::arithmetic::div_mod::lemma_div_denominator;
use vstd::prelude::*;
use vstd::utf8::{decode_utf8, encode_utf8, valid_utf8};

use crate::serialization::format::{
    emit, flat, group_format, law_emit_succeeds, lemma_emit_add, sizes_fit, DeserializeBytes,
    SerializationError, SerializeBytes, Token, Written,
};
use crate::serialization::little_endian::{le_bytes, le_value, lemma_le_bytes_len};
use crate::serialization::primitives::{items_tokens, parse_items};

verus! {

proof fn lemma_four_bytes(x: nat)
    requires
        x <= u32::MAX,
    ensures
        le_bytes(x, 4) == seq![
            (x % 256) as u8,
            (x / 0x100 % 256) as u8,
            (x / 0x1_0000 % 256) as u8,
            (x / 0x100_0000) as u8,
        ],
{
    reveal_with_fuel(le_bytes, 5);
    assert(le_bytes(x, 4) =~= seq![
        (x % 256) as u8,
        (x / 0x100 % 256) as u8,
        (x / 0x1_0000 % 256) as u8,
        (x / 0x100_0000) as u8,
    ]);
}

proof fn lemma_eight_bytes(x: nat)
    requires
        x <= u64::MAX,
    ensures
        le_bytes(x, 8) == seq![
            (x % 256) as u8,
            (x / 0x100 % 256) as u8,
            (x / 0x1_0000 % 256) as u8,
            (x / 0x100_0000 % 256) as u8,
            (x / 0x1_0000_0000 % 256) as u8,
            (x / 0x100_0000_0000 % 256) as u8,
            (x / 0x1_0000_0000_0000 % 256) as u8,
            (x / 0x100_0000_0000_0000) as u8,
        ],
{
    let n = x as int;
    lemma_div_denominator(n, 0x100, 0x100);
    lemma_div_denominator(n, 0x1_0000, 0x100);
    lemma_div_denominator(n, 0x100_0000, 0x100);
    lemma_div_denominator(n, 0x1_0000_0000, 0x100);
    lemma_div_denominator(n, 0x100_0000_0000, 0x100);
    lemma_div_denominator(n, 0x1_0000_0000_0000, 0x100);
    lemma_div_denominator(n, 0x100_0000_0000_0000, 0x100);
    assert(x / 0x100_0000_0000_0000 < 256);
    reveal_with_fuel(le_bytes, 9);
    assert(le_bytes(x, 8) =~= seq![
        (x % 256) as u8,
        (x / 0x100 % 256) as u8,
        (x / 0x1_0000 % 256) as u8,
        (x / 0x100_0000 % 256) as u8,
        (x / 0x1_0000_0000 % 256) as u8,
        (x / 0x100_0000_0000 % 256) as u8,
        (x / 0x1_0000_0000_0000 % 256) as u8,
        (x / 0x100_0000_0000_0000) as u8,
    ]);
}

/// A byte is itself, a flag is one or zero, and a number is four or eight bytes, the lowest first.
/// A length takes four, and fits if it is below 2^32.
pub proof fn law_number_bytes(a: u8, b: u32, c: u64, d: bool, n: usize)
    ensures
        flat(u8::tokens(a)) == seq![a],
        flat(bool::tokens(d)) == seq![if d { 1u8 } else { 0u8 }],
        flat(u32::tokens(b)) == seq![
            (b % 256) as u8,
            (b / 0x100 % 256) as u8,
            (b / 0x1_0000 % 256) as u8,
            (b / 0x100_0000) as u8,
        ],
        flat(u64::tokens(c)) == seq![
            (c % 256) as u8,
            (c / 0x100 % 256) as u8,
            (c / 0x1_0000 % 256) as u8,
            (c / 0x100_0000 % 256) as u8,
            (c / 0x1_0000_0000 % 256) as u8,
            (c / 0x100_0000_0000 % 256) as u8,
            (c / 0x1_0000_0000_0000 % 256) as u8,
            (c / 0x100_0000_0000_0000) as u8,
        ],
        n <= u32::MAX ==> flat(usize::tokens(n)) == seq![
            (n % 256) as u8,
            (n / 0x100 % 256) as u8,
            (n / 0x1_0000 % 256) as u8,
            (n / 0x100_0000) as u8,
        ],
        sizes_fit(u8::tokens(a)),
        sizes_fit(bool::tokens(d)),
        sizes_fit(u32::tokens(b)),
        sizes_fit(u64::tokens(c)),
        sizes_fit(usize::tokens(n)) <==> n <= u32::MAX,
{
    broadcast use group_format;

    lemma_four_bytes(b as nat);
    lemma_eight_bytes(c as nat);
    if n <= u32::MAX {
        lemma_four_bytes(n as nat);
    }
}

/// Text is its length in bytes, then its bytes.
pub proof fn law_text_bytes(text: Seq<char>)
    requires
        encode_utf8(text).len() <= u32::MAX,
    ensures
        ({
            let n = encode_utf8(text).len();
            flat(str::tokens(text)) == seq![
                (n % 256) as u8,
                (n / 0x100 % 256) as u8,
                (n / 0x1_0000 % 256) as u8,
                (n / 0x100_0000) as u8,
            ] + encode_utf8(text)
        }),
        String::tokens(text) == str::tokens(text),
        sizes_fit(str::tokens(text)),
{
    broadcast use group_format;

    lemma_four_bytes(encode_utf8(text).len());
}

/// A list is its length, then its items, one behind the other.
pub proof fn law_list_bytes<T: SerializeBytes>(
    first: <T as DeepView>::V,
    more: Seq<<T as DeepView>::V>,
)
    requires
        more.len() <= u32::MAX,
    ensures
        ({
            let n = more.len();
            flat(Vec::<T>::tokens(more)) == seq![
                (n % 256) as u8,
                (n / 0x100 % 256) as u8,
                (n / 0x1_0000 % 256) as u8,
                (n / 0x100_0000) as u8,
            ] + flat(items_tokens::<T>(more))
        }),
        flat(items_tokens::<T>(Seq::empty())) == Seq::<u8>::empty(),
        flat(items_tokens::<T>(seq![first] + more)) == flat(T::tokens(first)) + flat(
            items_tokens::<T>(more),
        ),
        sizes_fit(Vec::<T>::tokens(more)) <==> sizes_fit(items_tokens::<T>(more)),
        sizes_fit(items_tokens::<T>(Seq::empty())),
        sizes_fit(items_tokens::<T>(seq![first] + more)) <==> sizes_fit(T::tokens(first))
            && sizes_fit(items_tokens::<T>(more)),
{
    broadcast use group_format;

    lemma_four_bytes(more.len());
    assert((seq![first] + more).skip(1) =~= more);
    assert((seq![first] + more)[0] == first);
}

/// A list of 2^32 items or more does not fit.
pub proof fn law_long_list_does_not_fit<T: SerializeBytes>(items: Seq<<T as DeepView>::V>)
    requires
        items.len() > u32::MAX,
    ensures
        !sizes_fit(Vec::<T>::tokens(items)),
{
    broadcast use group_format;

}

/// A pair is its first part, then its second.
pub proof fn law_pair_bytes<A: SerializeBytes, B: SerializeBytes>(
    a: <A as DeepView>::V,
    b: <B as DeepView>::V,
)
    ensures
        flat(<(A, B)>::tokens((a, b))) == flat(A::tokens(a)) + flat(B::tokens(b)),
        sizes_fit(<(A, B)>::tokens((a, b))) <==> sizes_fit(A::tokens(a)) && sizes_fit(B::tokens(b)),
{
    broadcast use group_format;

}

/// Writing ends at the first step that cannot be written: what came before it stays, and the error
/// says whether its length does not fit four bytes or its bytes do not fit the buffer.
pub proof fn law_first_failure(
    bytes: Seq<u8>,
    before: Seq<Token>,
    token: Token,
    after: Seq<Token>,
)
    requires
        bytes.len() + flat(before).len() <= isize::MAX,
        forall|i: int|
            0 <= i < before.len() ==> (#[trigger] before[i] matches Token::Size(n) ==> n
                <= u32::MAX),
    ensures
        ({
            let now = bytes + flat(before);
            let end = emit(bytes, before + (seq![token] + after));
            match token {
                Token::Size(n) => if n > u32::MAX {
                    end == (Written {
                        bytes: now,
                        error: Some(SerializationError::UsizeTooLarge { size: n as usize }),
                    })
                } else {
                    now.len() + 4 > isize::MAX ==> end == (Written {
                        bytes: now,
                        error: Some(SerializationError::WriteBufferFull),
                    })
                },
                Token::Raw(raw) => now.len() + raw.len() > isize::MAX ==> end == (Written {
                    bytes: now,
                    error: Some(SerializationError::WriteBufferFull),
                }),
            }
        }),
{
    broadcast use group_format;

    law_emit_succeeds(bytes, before);
    lemma_emit_add(bytes, before, seq![token] + after);
    lemma_emit_add(bytes + flat(before), seq![token], after);
    if let Token::Size(n) = token {
        lemma_le_bytes_len(n, 4);
    }
}

/// Writing succeeds where every length fits four bytes and the bytes fit the buffer; then it appends
/// the bytes of the steps.
pub proof fn law_all_written(bytes: Seq<u8>, tokens: Seq<Token>)
    requires
        bytes.len() + flat(tokens).len() <= isize::MAX,
        forall|i: int|
            0 <= i < tokens.len() ==> (#[trigger] tokens[i] matches Token::Size(n) ==> n
                <= u32::MAX),
    ensures
        emit(bytes, tokens) == (Written { bytes: bytes + flat(tokens), error: None }),
        sizes_fit(tokens),
{
    law_emit_succeeds(bytes, tokens);
}

/// The bytes of a step behind others.
pub proof fn law_bytes_of_a_step(before: Seq<Token>, raw: Seq<u8>, n: nat)
    requires
        n <= u32::MAX,
    ensures
        flat(Seq::<Token>::empty()) == Seq::<u8>::empty(),
        flat(before.push(Token::Raw(raw))) == flat(before) + raw,
        flat(before.push(Token::Size(n))) == flat(before) + seq![
            (n % 256) as u8,
            (n / 0x100 % 256) as u8,
            (n / 0x1_0000 % 256) as u8,
            (n / 0x100_0000) as u8,
        ],
{
    broadcast use group_format;

    lemma_four_bytes(n);
    assert(before.push(Token::Raw(raw)) =~= before + seq![Token::Raw(raw)]);
    assert(before.push(Token::Size(n)) =~= before + seq![Token::Size(n)]);
}

pub proof fn lemma_value_of_four(s: Seq<u8>)
    requires
        s.len() == 4,
    ensures
        le_value(s) == s[0] + 0x100 * s[1] + 0x1_0000 * s[2] + 0x100_0000 * s[3],
{
    reveal_with_fuel(le_value, 5);
}

pub proof fn lemma_value_of_eight(s: Seq<u8>)
    requires
        s.len() == 8,
    ensures
        le_value(s) == s[0] + 0x100 * s[1] + 0x1_0000 * s[2] + 0x100_0000 * s[3] + 0x1_0000_0000
            * s[4] + 0x100_0000_0000 * s[5] + 0x1_0000_0000_0000 * s[6] + 0x100_0000_0000_0000
            * s[7],
{
    reveal_with_fuel(le_value, 9);
}

/// A number is read from as many bytes as it takes, and not read where there are fewer. A flag is
/// read from a byte that is zero or one.
pub proof fn law_numbers_read(s: Seq<u8>)
    ensures
        s.len() < 1 ==> u8::parse(s) == Err::<(u8, Seq<u8>), (SerializationError, Seq<u8>)>(
            (SerializationError::NotEnoughData, s),
        ) && bool::parse(s) == Err::<(bool, Seq<u8>), (SerializationError, Seq<u8>)>(
            (SerializationError::NotEnoughData, s),
        ),
        s.len() >= 1 ==> u8::parse(s) == Ok::<(u8, Seq<u8>), (SerializationError, Seq<u8>)>(
            (s[0], s.skip(1)),
        ),
        s.len() >= 1 ==> bool::parse(s) == match s[0] {
            0 => Ok::<(bool, Seq<u8>), (SerializationError, Seq<u8>)>((false, s.skip(1))),
            1 => Ok((true, s.skip(1))),
            index => Err(
                (SerializationError::UnknownEnumVariant { name: "bool", index }, s.skip(1)),
            ),
        },
        s.len() < 4 ==> u32::parse(s) == Err::<(u32, Seq<u8>), (SerializationError, Seq<u8>)>(
            (SerializationError::NotEnoughData, s),
        ) && usize::parse(s) == Err::<(usize, Seq<u8>), (SerializationError, Seq<u8>)>(
            (SerializationError::NotEnoughData, s),
        ),
        s.len() >= 4 ==> u32::parse(s) == Ok::<(u32, Seq<u8>), (SerializationError, Seq<u8>)>(
            ((s[0] + 0x100 * s[1] + 0x1_0000 * s[2] + 0x100_0000 * s[3]) as u32, s.skip(4)),
        ) && usize::parse(s) == Ok::<(usize, Seq<u8>), (SerializationError, Seq<u8>)>(
            ((s[0] + 0x100 * s[1] + 0x1_0000 * s[2] + 0x100_0000 * s[3]) as usize, s.skip(4)),
        ),
        s.len() < 8 ==> u64::parse(s) == Err::<(u64, Seq<u8>), (SerializationError, Seq<u8>)>(
            (SerializationError::NotEnoughData, s),
        ),
        s.len() >= 8 ==> u64::parse(s) == Ok::<(u64, Seq<u8>), (SerializationError, Seq<u8>)>(
            (
                (s[0] + 0x100 * s[1] + 0x1_0000 * s[2] + 0x100_0000 * s[3] + 0x1_0000_0000 * s[4]
                    + 0x100_0000_0000 * s[5] + 0x1_0000_0000_0000 * s[6] + 0x100_0000_0000_0000
                    * s[7]) as u64,
                s.skip(8),
            ),
        ),
{
    if s.len() >= 4 {
        lemma_value_of_four(s.take(4));
    }
    if s.len() >= 8 {
        lemma_value_of_eight(s.take(8));
    }
}

/// Text is read from as many bytes as its length says, if there are as many and they are
/// well-formed.
pub proof fn law_text_read(s: Seq<u8>)
    ensures
        s.len() < 4 ==> String::parse(s) == Err::<
            (Seq<char>, Seq<u8>),
            (SerializationError, Seq<u8>),
        >((SerializationError::NotEnoughData, s)),
        s.len() >= 4 ==> ({
            let n = s[0] + 0x100 * s[1] + 0x1_0000 * s[2] + 0x100_0000 * s[3];
            let rest = s.skip(4);
            String::parse(s) == if rest.len() < n {
                Err::<(Seq<char>, Seq<u8>), (SerializationError, Seq<u8>)>(
                    (SerializationError::NotEnoughData, rest),
                )
            } else if valid_utf8(rest.take(n)) {
                Ok((decode_utf8(rest.take(n)), rest.skip(n)))
            } else {
                Err((SerializationError::FromUtf8Error, rest.skip(n)))
            }
        }),
{
    law_numbers_read(s);
}

/// A list is read as many times over as its length says, up to the first item that is not read.
pub proof fn law_list_read<T: DeserializeBytes>(s: Seq<u8>, n: nat)
    ensures
        s.len() < 4 ==> Vec::<T>::parse(s) == Err::<
            (Seq<<T as DeepView>::V>, Seq<u8>),
            (SerializationError, Seq<u8>),
        >((SerializationError::NotEnoughData, s)),
        s.len() >= 4 ==> Vec::<T>::parse(s) == parse_items::<T>(
            s.skip(4),
            (s[0] + 0x100 * s[1] + 0x1_0000 * s[2] + 0x100_0000 * s[3]) as nat,
        ),
        parse_items::<T>(s, 0) == Ok::<
            (Seq<<T as DeepView>::V>, Seq<u8>),
            (SerializationError, Seq<u8>),
        >((Seq::empty(), s)),
        T::parse(s) matches Err(e) ==> parse_items::<T>(s, n + 1) == Err::<
            (Seq<<T as DeepView>::V>, Seq<u8>),
            (SerializationError, Seq<u8>),
        >(e),
        T::parse(s) matches Ok((first, rest)) ==> (parse_items::<T>(rest, n) matches Err(e)
            ==> parse_items::<T>(s, n + 1) == Err::<
            (Seq<<T as DeepView>::V>, Seq<u8>),
            (SerializationError, Seq<u8>),
        >(e)),
        T::parse(s) matches Ok((first, rest)) ==> (parse_items::<T>(rest, n) matches Ok((more,
            left))
            ==> parse_items::<T>(s, n + 1) == Ok::<
            (Seq<<T as DeepView>::V>, Seq<u8>),
            (SerializationError, Seq<u8>),
        >((seq![first] + more, left))),
{
    law_numbers_read(s);
}

/// A pair is read part by part, up to the first that is not read.
pub proof fn law_pair_read<A: DeserializeBytes, B: DeserializeBytes>(s: Seq<u8>)
    ensures
        A::parse(s) matches Err(e) ==> <(A, B)>::parse(s) == Err::<
            ((<A as DeepView>::V, <B as DeepView>::V), Seq<u8>),
            (SerializationError, Seq<u8>),
        >(e),
        A::parse(s) matches Ok((a, rest)) ==> (B::parse(rest) matches Err(e)
            ==> <(A, B)>::parse(s) == Err::<
            ((<A as DeepView>::V, <B as DeepView>::V), Seq<u8>),
            (SerializationError, Seq<u8>),
        >(e)),
        A::parse(s) matches Ok((a, rest)) ==> (B::parse(rest) matches Ok((b, left))
            ==> <(A, B)>::parse(s) == Ok::<
            ((<A as DeepView>::V, <B as DeepView>::V), Seq<u8>),
            (SerializationError, Seq<u8>),
        >(((a, b), left))),
{
}

/// What was written is not read where its end is missing.
pub proof fn law_truncated_is_refused<T: DeserializeBytes>(v: <T as DeepView>::V, n: int)
    requires
        T::accepted(v),
        sizes_fit(T::tokens(v)),
        0 <= n < flat(T::tokens(v)).len(),
    ensures
        T::parse(flat(T::tokens(v)).take(n)) is Err,
{
    let all = flat(T::tokens(v));
    let front = all.take(n);
    if T::parse(front) is Ok {
        T::law_canonical(front);
        let (other, rest) = T::parse(front)->Ok_0;
        let left = rest + all.skip(n);
        assert(front == flat(T::tokens(other)) + rest);
        assert(all =~= front + all.skip(n));
        assert((flat(T::tokens(other)) + rest) + all.skip(n) =~= flat(T::tokens(other)) + left);
        T::law_round_trip(other, left);
        assert(all =~= all + Seq::<u8>::empty());
        T::law_round_trip(v, Seq::empty());
        assert(left.len() > 0);
    }
}

/// Values that are written as the same bytes are the same.
pub proof fn law_bytes_determine_the_value<T: DeserializeBytes>(
    a: <T as DeepView>::V,
    b: <T as DeepView>::V,
)
    requires
        T::accepted(a),
        T::accepted(b),
        sizes_fit(T::tokens(a)),
        sizes_fit(T::tokens(b)),
        flat(T::tokens(a)) == flat(T::tokens(b)),
    ensures
        a == b,
{
    T::law_round_trip(a, Seq::empty());
    T::law_round_trip(b, Seq::empty());
}

} // verus!
