//! The byte format of numbers, flags, text and lists.

use vstd::prelude::*;
use vstd::utf8::{
    decode_utf8, decode_utf8_encode_utf8, encode_utf8, encode_utf8_decode_utf8,
        encode_utf8_valid_utf8, valid_utf8,
};

use crate::serialization::buffers::{
    copy_to_slice, get_u32_le, get_u64_le, get_u8, put_slice, put_u32_le, put_u64_le, put_u8,
    remaining, remaining_mut, string_from_utf8,
};
use crate::serialization::format::{
    emit, flat, group_format, lemma_emit_add, lemma_emit_one, lemma_joined, lemma_sizes_fit_add,
    sizes_fit,
    DeserializeBytes, Parsed, SerializationError, SerializeBytes, Token, Written,
};
use crate::serialization::little_endian::{
    le_bytes, le_value, lemma_le_bytes_len, lemma_le_bytes_of_value, lemma_le_limits,
    lemma_le_value_limit, lemma_le_value_of_bytes,
};

verus! {

impl SerializeBytes for u8 {
    open spec fn tokens(v: u8) -> Seq<Token> {
        seq![Token::Raw(seq![v])]
    }

    fn serialize(&self, out: &mut Vec<u8>) -> (result: Result<(), SerializationError>) {
        proof {
            assert(Self::tokens(self.deep_view()) == seq![Token::Raw(seq![*self])]);
            lemma_emit_one(out@, Token::Raw(seq![*self]));
        }
        if remaining_mut(out) < 1 {
            return Err(SerializationError::WriteBufferFull);
        }
        put_u8(out, *self);
        Ok(())
    }
}

impl DeserializeBytes for u8 {
    open spec fn accepted(v: u8) -> bool {
        true
    }

    open spec fn parse(s: Seq<u8>) -> Parsed<u8> {
        if s.len() < 1 {
            Err((SerializationError::NotEnoughData, s))
        } else {
            Ok((s[0], s.skip(1)))
        }
    }

    fn deserialize(buf: &mut &[u8]) -> (result: Result<u8, SerializationError>) {
        if remaining(buf) < 1 {
            return Err(SerializationError::NotEnoughData);
        }
        Ok(get_u8(buf))
    }

    proof fn law_canonical(s: Seq<u8>) {
        broadcast use group_format;

        if s.len() >= 1 {
            assert(s =~= flat(Self::tokens(s[0])) + s.skip(1));
        }
    }

    proof fn law_round_trip(v: u8, rest: Seq<u8>) {
        broadcast use group_format;

        assert((seq![v] + rest).skip(1) =~= rest);
    }
}

impl SerializeBytes for u32 {
    open spec fn tokens(v: u32) -> Seq<Token> {
        seq![Token::Raw(le_bytes(v as nat, 4))]
    }

    fn serialize(&self, out: &mut Vec<u8>) -> (result: Result<(), SerializationError>) {
        proof {
            lemma_le_bytes_len(*self as nat, 4);
            assert(Self::tokens(self.deep_view()) == seq![Token::Raw(le_bytes(*self as nat, 4))]);
            lemma_emit_one(out@, Token::Raw(le_bytes(*self as nat, 4)));
        }
        if remaining_mut(out) < 4 {
            return Err(SerializationError::WriteBufferFull);
        }
        put_u32_le(out, *self);
        Ok(())
    }
}

impl DeserializeBytes for u32 {
    open spec fn accepted(v: u32) -> bool {
        true
    }

    open spec fn parse(s: Seq<u8>) -> Parsed<u32> {
        if s.len() < 4 {
            Err((SerializationError::NotEnoughData, s))
        } else {
            Ok((le_value(s.take(4)) as u32, s.skip(4)))
        }
    }

    fn deserialize(buf: &mut &[u8]) -> (result: Result<u32, SerializationError>) {
        if remaining(buf) < 4 {
            return Err(SerializationError::NotEnoughData);
        }
        Ok(get_u32_le(buf))
    }

    proof fn law_canonical(s: Seq<u8>) {
        broadcast use group_format;

        if s.len() >= 4 {
            let front = s.take(4);
            lemma_le_limits();
            lemma_le_value_limit(front);
            lemma_le_bytes_of_value(front);
            assert(s =~= flat(Self::tokens(le_value(front) as u32)) + s.skip(4));
        }
    }

    proof fn law_round_trip(v: u32, rest: Seq<u8>) {
        broadcast use group_format;

        let s = le_bytes(v as nat, 4);
        lemma_le_bytes_len(v as nat, 4);
        lemma_le_limits();
        lemma_le_value_of_bytes(v as nat, 4);
        assert((s + rest).take(4) =~= s);
        assert((s + rest).skip(4) =~= rest);
    }
}

impl SerializeBytes for u64 {
    open spec fn tokens(v: u64) -> Seq<Token> {
        seq![Token::Raw(le_bytes(v as nat, 8))]
    }

    fn serialize(&self, out: &mut Vec<u8>) -> (result: Result<(), SerializationError>) {
        proof {
            lemma_le_bytes_len(*self as nat, 8);
            assert(Self::tokens(self.deep_view()) == seq![Token::Raw(le_bytes(*self as nat, 8))]);
            lemma_emit_one(out@, Token::Raw(le_bytes(*self as nat, 8)));
        }
        if remaining_mut(out) < 8 {
            return Err(SerializationError::WriteBufferFull);
        }
        put_u64_le(out, *self);
        Ok(())
    }
}

impl DeserializeBytes for u64 {
    open spec fn accepted(v: u64) -> bool {
        true
    }

    open spec fn parse(s: Seq<u8>) -> Parsed<u64> {
        if s.len() < 8 {
            Err((SerializationError::NotEnoughData, s))
        } else {
            Ok((le_value(s.take(8)) as u64, s.skip(8)))
        }
    }

    fn deserialize(buf: &mut &[u8]) -> (result: Result<u64, SerializationError>) {
        if remaining(buf) < 8 {
            return Err(SerializationError::NotEnoughData);
        }
        Ok(get_u64_le(buf))
    }

    proof fn law_canonical(s: Seq<u8>) {
        broadcast use group_format;

        if s.len() >= 8 {
            let front = s.take(8);
            lemma_le_limits();
            lemma_le_value_limit(front);
            lemma_le_bytes_of_value(front);
            assert(s =~= flat(Self::tokens(le_value(front) as u64)) + s.skip(8));
        }
    }

    proof fn law_round_trip(v: u64, rest: Seq<u8>) {
        broadcast use group_format;

        let s = le_bytes(v as nat, 8);
        lemma_le_bytes_len(v as nat, 8);
        lemma_le_limits();
        lemma_le_value_of_bytes(v as nat, 8);
        assert((s + rest).take(8) =~= s);
        assert((s + rest).skip(8) =~= rest);
    }
}

/// A length is written in four bytes.
impl SerializeBytes for usize {
    open spec fn tokens(v: usize) -> Seq<Token> {
        seq![Token::Size(v as nat)]
    }

    fn serialize(&self, out: &mut Vec<u8>) -> (result: Result<(), SerializationError>) {
        proof {
            assert(Self::tokens(self.deep_view()) == seq![Token::Size(*self as nat)]);
            lemma_emit_one(out@, Token::Size(*self as nat));
            lemma_emit_one(out@, Token::Raw(le_bytes(*self as nat, 4)));
        }
        if *self > u32::MAX as usize {
            return Err(SerializationError::UsizeTooLarge { size: *self });
        }
        (*self as u32).serialize(out)
    }
}

impl DeserializeBytes for usize {
    open spec fn accepted(v: usize) -> bool {
        true
    }

    open spec fn parse(s: Seq<u8>) -> Parsed<usize> {
        match u32::parse(s) {
            Ok((n, rest)) => Ok((n as usize, rest)),
            Err(e) => Err(e),
        }
    }

    fn deserialize(buf: &mut &[u8]) -> (result: Result<usize, SerializationError>) {
        let n: u32 = u32::deserialize(buf)?;
        Ok(n as usize)
    }

    proof fn law_canonical(s: Seq<u8>) {
        broadcast use group_format;

        u32::law_canonical(s);
    }

    proof fn law_round_trip(v: usize, rest: Seq<u8>) {
        broadcast use group_format;

        u32::law_round_trip(v as u32, rest);
    }
}

/// A flag is written as one byte.
impl SerializeBytes for bool {
    open spec fn tokens(v: bool) -> Seq<Token> {
        u8::tokens(if v { 1u8 } else { 0u8 })
    }

    fn serialize(&self, out: &mut Vec<u8>) -> (result: Result<(), SerializationError>) {
        let byte: u8 = if *self { 1 } else { 0 };
        byte.serialize(out)
    }
}

impl DeserializeBytes for bool {
    open spec fn accepted(v: bool) -> bool {
        true
    }

    open spec fn parse(s: Seq<u8>) -> Parsed<bool> {
        match u8::parse(s) {
            Ok((byte, rest)) => if byte == 0 {
                Ok((false, rest))
            } else if byte == 1 {
                Ok((true, rest))
            } else {
                Err((SerializationError::UnknownEnumVariant { name: "bool", index: byte }, rest))
            },
            Err(e) => Err(e),
        }
    }

    fn deserialize(buf: &mut &[u8]) -> (result: Result<bool, SerializationError>) {
        let byte: u8 = u8::deserialize(buf)?;
        if byte == 0 {
            Ok(false)
        } else if byte == 1 {
            Ok(true)
        } else {
            Err(SerializationError::UnknownEnumVariant { name: "bool", index: byte })
        }
    }

    proof fn law_canonical(s: Seq<u8>) {
        u8::law_canonical(s);
    }

    proof fn law_round_trip(v: bool, rest: Seq<u8>) {
        u8::law_round_trip(if v { 1u8 } else { 0u8 }, rest);
    }
}

/// Text is written as the length of its UTF-8 form, then that form.
impl SerializeBytes for str {
    open spec fn tokens(v: Seq<char>) -> Seq<Token> {
        seq![Token::Size(encode_utf8(v).len())] + seq![Token::Raw(encode_utf8(v))]
    }

    fn serialize(&self, out: &mut Vec<u8>) -> (result: Result<(), SerializationError>) {
        broadcast use group_format;

        let bytes = self.as_bytes();
        bytes.len().serialize(out)?;
        if remaining_mut(out) < bytes.len() {
            return Err(SerializationError::WriteBufferFull);
        }
        put_slice(out, bytes);
        Ok(())
    }
}

impl SerializeBytes for String {
    open spec fn tokens(v: Seq<char>) -> Seq<Token> {
        str::tokens(v)
    }

    fn serialize(&self, out: &mut Vec<u8>) -> (result: Result<(), SerializationError>) {
        self.as_str().serialize(out)
    }
}

impl DeserializeBytes for String {
    open spec fn accepted(v: Seq<char>) -> bool {
        true
    }

    open spec fn parse(s: Seq<u8>) -> Parsed<Seq<char>> {
        match usize::parse(s) {
            Ok((n, rest)) => if rest.len() < n {
                Err((SerializationError::NotEnoughData, rest))
            } else if !valid_utf8(rest.take(n as int)) {
                Err((SerializationError::FromUtf8Error, rest.skip(n as int)))
            } else {
                Ok((decode_utf8(rest.take(n as int)), rest.skip(n as int)))
            },
            Err(e) => Err(e),
        }
    }

    fn deserialize(buf: &mut &[u8]) -> (result: Result<String, SerializationError>) {
        let n: usize = usize::deserialize(buf)?;
        if remaining(buf) < n {
            return Err(SerializationError::NotEnoughData);
        }
        let mut bytes: Vec<u8> = Vec::new();
        bytes.resize(n, 0);
        copy_to_slice(buf, &mut bytes);
        match string_from_utf8(bytes) {
            Some(text) => Ok(text),
            None => Err(SerializationError::FromUtf8Error),
        }
    }

    proof fn law_canonical(s: Seq<u8>) {
        broadcast use group_format;

        usize::law_canonical(s);
        if let Ok((n, rest)) = usize::parse(s) {
            if rest.len() >= n && valid_utf8(rest.take(n as int)) {
                let text = decode_utf8(rest.take(n as int));
                decode_utf8_encode_utf8(rest.take(n as int));
                assert(rest =~= rest.take(n as int) + rest.skip(n as int));
                assert(flat(seq![Token::Raw(encode_utf8(text))]) == rest.take(n as int));
                lemma_joined(
                    usize::tokens(n),
                    seq![Token::Raw(encode_utf8(text))],
                    s,
                    rest,
                    rest.skip(n as int),
                );
            }
        }
    }

    proof fn law_round_trip(v: Seq<char>, rest: Seq<u8>) {
        broadcast use group_format;

        let bytes = encode_utf8(v);
        encode_utf8_valid_utf8(v);
        encode_utf8_decode_utf8(v);
        usize::law_round_trip(bytes.len() as usize, bytes + rest);
        assert(flat(Self::tokens(v)) + rest =~= le_bytes(bytes.len(), 4) + (bytes + rest));
        assert((bytes + rest).take(bytes.len() as int) =~= bytes);
        assert((bytes + rest).skip(bytes.len() as int) =~= rest);
    }
}

/// The steps of writing the items of a list.
pub open spec fn items_tokens<T: SerializeBytes>(items: Seq<<T as DeepView>::V>) -> Seq<Token>
    decreases items.len(),
{
    if items.len() == 0 {
        Seq::empty()
    } else {
        T::tokens(items[0]) + items_tokens::<T>(items.skip(1))
    }
}

/// What comes of reading `n` items.
pub open spec fn parse_items<T: DeserializeBytes>(s: Seq<u8>, n: nat) -> Parsed<
    Seq<<T as DeepView>::V>,
>
    decreases n,
{
    if n == 0 {
        Ok((Seq::empty(), s))
    } else {
        match T::parse(s) {
            Ok((first, rest)) => prepend(
                seq![first],
                parse_items::<T>(rest, (n - 1) as nat),
            ),
            Err(e) => Err(e),
        }
    }
}

/// Puts items that were read before in front of those that were read after them.
pub open spec fn prepend<V>(items: Seq<V>, parsed: Parsed<Seq<V>>) -> Parsed<Seq<V>> {
    match parsed {
        Ok((more, rest)) => Ok((items + more, rest)),
        Err(e) => Err(e),
    }
}

/// Whether reading accepts every item of a list.
pub open spec fn items_accepted<T: DeserializeBytes>(items: Seq<<T as DeepView>::V>) -> bool {
    forall|i: int| 0 <= i < items.len() ==> T::accepted(#[trigger] items[i])
}

/// Where the lengths of every item fit, those of the list of items do.
pub proof fn lemma_items_fit<T: SerializeBytes>(items: Seq<<T as DeepView>::V>)
    requires
        forall|i: int| 0 <= i < items.len() ==> sizes_fit(#[trigger] T::tokens(items[i])),
    ensures
        sizes_fit(items_tokens::<T>(items)),
    decreases items.len(),
{
    if items.len() > 0 {
        let more = items.skip(1);
        assert forall|i: int| 0 <= i < more.len() implies sizes_fit(
            #[trigger] T::tokens(more[i]),
        ) by {
            assert(more[i] == items[i + 1]);
            assert(sizes_fit(T::tokens(items[i + 1])));
        }
        lemma_items_fit::<T>(more);
        assert(sizes_fit(T::tokens(items[0])));
        lemma_sizes_fit_add(T::tokens(items[0]), items_tokens::<T>(more));
    }
}

/// The items of a list are read back.
pub proof fn lemma_items_round_trip<T: DeserializeBytes>(
    items: Seq<<T as DeepView>::V>,
    rest: Seq<u8>,
)
    requires
        items_accepted::<T>(items),
        sizes_fit(items_tokens::<T>(items)),
    ensures
        parse_items::<T>(flat(items_tokens::<T>(items)) + rest, items.len()) == Ok::<
            (Seq<<T as DeepView>::V>, Seq<u8>),
            (SerializationError, Seq<u8>),
        >((items, rest)),
    decreases items.len(),
{
    broadcast use group_format;

    if items.len() == 0 {
        assert(flat(items_tokens::<T>(items)) + rest =~= rest);
        assert(items =~= Seq::empty());
    } else {
        let more = items.skip(1);
        let tail = flat(items_tokens::<T>(more)) + rest;
        assert forall|i: int| 0 <= i < more.len() implies T::accepted(#[trigger] more[i]) by {
            assert(more[i] == items[i + 1]);
        }
        lemma_items_round_trip::<T>(more, rest);
        T::law_round_trip(items[0], tail);
        assert(flat(items_tokens::<T>(items)) + rest =~= flat(T::tokens(items[0])) + tail);
        assert(seq![items[0]] + more =~= items);
        assert((items.len() - 1) as nat == more.len());
    }
}

/// Writes the items of a list, without its length.
pub fn serialize_items<T: SerializeBytes>(items: &[T], out: &mut Vec<u8>) -> (result: Result<
    (),
    SerializationError,
>)
    ensures
        emit(old(out)@, items_tokens::<T>(items.deep_view())) == (Written {
            bytes: final(out)@,
            error: result.err(),
        }),
{
    let ghost all = items.deep_view();
    let mut i: usize = 0;
    assert(all.skip(0) =~= all);
    while i < items.len()
        invariant
            all == items.deep_view(),
            i <= items@.len(),
            emit(old(out)@, items_tokens::<T>(all)) == emit(
                out@,
                items_tokens::<T>(all.skip(i as int)),
            ),
        decreases items@.len() - i,
    {
        let ghost left = all.skip(i as int);
        assert(left.skip(1) =~= all.skip(i + 1));
        assert(left[0] == items@[i as int].deep_view());
        proof {
            lemma_emit_add(out@, T::tokens(left[0]), items_tokens::<T>(left.skip(1)));
        }
        items[i].serialize(out)?;
        i += 1;
    }
    Ok(())
}

/// Reads `n` items.
pub fn deserialize_items<T: DeserializeBytes>(buf: &mut &[u8], n: usize) -> (result: Result<
    Vec<T>,
    SerializationError,
>)
    ensures
        result matches Ok(items) ==> items@.len() == n,
        match result {
            Ok(items) => parse_items::<T>(old(buf)@, n as nat) == Ok::<
                (Seq<<T as DeepView>::V>, Seq<u8>),
                (SerializationError, Seq<u8>),
            >((items.deep_view(), final(buf)@)),
            Err(e) => parse_items::<T>(old(buf)@, n as nat) == Err::<
                (Seq<<T as DeepView>::V>, Seq<u8>),
                (SerializationError, Seq<u8>),
            >((e, final(buf)@)),
        },
{
    let mut items: Vec<T> = Vec::new();
    let mut i: usize = 0;
    proof {
        let all = parse_items::<T>(buf@, n as nat);
        if let Ok((more, rest)) = all {
            assert(items.deep_view() + more =~= more);
        }
    }
    while i < n
        invariant
            i <= n,
            items@.len() == i,
            parse_items::<T>(old(buf)@, n as nat) == prepend(
                items.deep_view(),
                parse_items::<T>(buf@, (n - i) as nat),
            ),
        decreases n - i,
    {
        let ghost before = items.deep_view();
        let item = T::deserialize(buf)?;
        let ghost first = item.deep_view();
        items.push(item);
        proof {
            assert(items.deep_view() =~= before + seq![first]);
            if let Ok((more, rest)) = parse_items::<T>(buf@, (n - i - 1) as nat) {
                assert(before + (seq![first] + more) =~= items.deep_view() + more);
            }
        }
        i += 1;
    }
    proof {
        assert(items.deep_view() + Seq::empty() =~= items.deep_view());
    }
    Ok(items)
}

/// A list is written as its length, then its items.
impl<T: SerializeBytes> SerializeBytes for Vec<T> {
    open spec fn tokens(v: Seq<<T as DeepView>::V>) -> Seq<Token> {
        seq![Token::Size(v.len())] + items_tokens::<T>(v)
    }

    fn serialize(&self, out: &mut Vec<u8>) -> (result: Result<(), SerializationError>) {
        broadcast use group_format;

        self.len().serialize(out)?;
        let items = self.as_slice();
        assert(items.deep_view() =~= self.deep_view());
        serialize_items(items, out)
    }
}

/// Items that were read were written.
pub proof fn lemma_items_canonical<T: DeserializeBytes>(s: Seq<u8>, n: nat)
    ensures
        parse_items::<T>(s, n) matches Ok((items, rest)) ==> items.len() == n
            && items_accepted::<T>(
            items,
        ) && sizes_fit(items_tokens::<T>(items)) && s == flat(items_tokens::<T>(items)) + rest,
    decreases n,
{
    if n == 0 {
        assert(s =~= flat(Seq::<Token>::empty()) + s);
    } else {
        T::law_canonical(s);
        if let Ok((first, r)) = T::parse(s) {
            lemma_items_canonical::<T>(r, (n - 1) as nat);
            if let Ok((more, rest)) = parse_items::<T>(r, (n - 1) as nat) {
                let items = seq![first] + more;
                assert(items.skip(1) =~= more);
                lemma_joined(T::tokens(first), items_tokens::<T>(more), s, r, rest);
                assert forall|i: int| 0 <= i < items.len() implies T::accepted(
                    #[trigger] items[i],
                ) by {
                    if i > 0 {
                        assert(items[i] == more[i - 1]);
                    }
                }
            }
        }
    }
}

impl<T: DeserializeBytes> DeserializeBytes for Vec<T> {
    open spec fn accepted(v: Seq<<T as DeepView>::V>) -> bool {
        items_accepted::<T>(v)
    }

    open spec fn parse(s: Seq<u8>) -> Parsed<Seq<<T as DeepView>::V>> {
        match usize::parse(s) {
            Ok((n, rest)) => parse_items::<T>(rest, n as nat),
            Err(e) => Err(e),
        }
    }

    fn deserialize(buf: &mut &[u8]) -> (result: Result<Vec<T>, SerializationError>) {
        let n: usize = usize::deserialize(buf)?;
        deserialize_items(buf, n)
    }

    proof fn law_canonical(s: Seq<u8>) {
        usize::law_canonical(s);
        if let Ok((n, rest)) = usize::parse(s) {
            lemma_items_canonical::<T>(rest, n as nat);
            if let Ok((items, left)) = parse_items::<T>(rest, n as nat) {
                lemma_joined(usize::tokens(n), items_tokens::<T>(items), s, rest, left);
            }
        }
    }

    proof fn law_round_trip(v: Seq<<T as DeepView>::V>, rest: Seq<u8>) {
        broadcast use group_format;

        let tail = flat(items_tokens::<T>(v)) + rest;
        usize::law_round_trip(v.len() as usize, tail);
        lemma_items_round_trip::<T>(v, rest);
        assert(flat(Self::tokens(v)) + rest =~= le_bytes(v.len(), 4) + tail);
    }
}

/// A pair is written as its parts, one after the other.
impl<A: SerializeBytes, B: SerializeBytes> SerializeBytes for (A, B) {
    open spec fn tokens(v: (<A as DeepView>::V, <B as DeepView>::V)) -> Seq<Token> {
        A::tokens(v.0) + B::tokens(v.1)
    }

    fn serialize(&self, out: &mut Vec<u8>) -> (result: Result<(), SerializationError>) {
        broadcast use group_format;

        self.0.serialize(out)?;
        self.1.serialize(out)
    }
}

impl<A: DeserializeBytes, B: DeserializeBytes> DeserializeBytes for (A, B) {
    open spec fn accepted(v: (<A as DeepView>::V, <B as DeepView>::V)) -> bool {
        A::accepted(v.0) && B::accepted(v.1)
    }

    open spec fn parse(s: Seq<u8>) -> Parsed<(<A as DeepView>::V, <B as DeepView>::V)> {
        match A::parse(s) {
            Ok((a, s)) => match B::parse(s) {
                Ok((b, s)) => Ok(((a, b), s)),
                Err(e) => Err(e),
            },
            Err(e) => Err(e),
        }
    }

    fn deserialize(buf: &mut &[u8]) -> (result: Result<(A, B), SerializationError>) {
        let a = A::deserialize(buf)?;
        let b = B::deserialize(buf)?;
        Ok((a, b))
    }

    proof fn law_canonical(s: Seq<u8>) {
        A::law_canonical(s);
        if let Ok((a, r)) = A::parse(s) {
            B::law_canonical(r);
            if let Ok((b, rest)) = B::parse(r) {
                lemma_joined(A::tokens(a), B::tokens(b), s, r, rest);
            }
        }
    }

    proof fn law_round_trip(v: (<A as DeepView>::V, <B as DeepView>::V), rest: Seq<u8>) {
        broadcast use group_format;

        let tail = flat(B::tokens(v.1)) + rest;
        A::law_round_trip(v.0, tail);
        B::law_round_trip(v.1, rest);
        assert(flat(Self::tokens(v)) + rest =~= flat(A::tokens(v.0)) + tail);
    }
}

} // verus!
