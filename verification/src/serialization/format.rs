//! What it is to write a value to bytes, and to read it back.

use vstd::prelude::*;

use crate::serialization::little_endian::le_bytes;

verus! {

/// Why a value was not written or not read.
#[derive(Clone, Copy, Debug, PartialEq, Eq)]
pub enum SerializationError {
    /// The bytes would not fit the write buffer.
    WriteBufferFull,
    /// The read buffer ends before the value does.
    NotEnoughData,
    /// A tag names no variant.
    UnknownEnumVariant { name: &'static str, index: u8 },
    /// Text is not well-formed UTF-8.
    FromUtf8Error,
    /// The parts do not make a value.
    InvalidConstruction { name: &'static str },
    /// A length does not fit its four bytes.
    UsizeTooLarge { size: usize },
}

/// A step of writing: bytes as they are, or a length.
pub ghost enum Token {
    Raw(Seq<u8>),
    Size(nat),
}

/// The bytes of one step.
pub open spec fn token_bytes(token: Token) -> Seq<u8> {
    match token {
        Token::Raw(bytes) => bytes,
        Token::Size(n) => le_bytes(n, 4),
    }
}

/// Where writing stands: what the buffer holds, and the error that ended it.
#[verifier::ext_equal]
pub ghost struct Written {
    pub bytes: Seq<u8>,
    pub error: Option<SerializationError>,
}

/// One step of writing.
pub open spec fn emit_token(bytes: Seq<u8>, token: Token) -> Written {
    let added = token_bytes(token);
    match token {
        Token::Size(n) if n > u32::MAX => Written {
            bytes,
            error: Some(SerializationError::UsizeTooLarge { size: n as usize }),
        },
        _ => if bytes.len() + added.len() > isize::MAX {
            Written { bytes, error: Some(SerializationError::WriteBufferFull) }
        } else {
            Written { bytes: bytes + added, error: None }
        },
    }
}

/// Writing step after step, up to the first error.
pub open spec fn emit(bytes: Seq<u8>, tokens: Seq<Token>) -> Written
    decreases tokens.len(),
{
    if tokens.len() == 0 {
        Written { bytes, error: None }
    } else {
        let first = emit_token(bytes, tokens[0]);
        if first.error is Some {
            first
        } else {
            emit(first.bytes, tokens.skip(1))
        }
    }
}

/// Writing on, unless an error has ended it.
pub open spec fn emit_more(written: Written, tokens: Seq<Token>) -> Written {
    if written.error is Some {
        written
    } else {
        emit(written.bytes, tokens)
    }
}

/// Writing two lists of steps is writing one after the other.
pub broadcast proof fn lemma_emit_add(bytes: Seq<u8>, a: Seq<Token>, b: Seq<Token>)
    ensures
        #[trigger] emit(bytes, a + b) == emit_more(emit(bytes, a), b),
    decreases a.len(),
{
    if a.len() == 0 {
        assert(a + b =~= b);
    } else {
        let first = emit_token(bytes, a[0]);
        assert((a + b).skip(1) =~= a.skip(1) + b);
        if first.error is None {
            lemma_emit_add(first.bytes, a.skip(1), b);
        }
    }
}

/// Writing one step.
pub broadcast proof fn lemma_emit_one(bytes: Seq<u8>, token: Token)
    ensures
        #[trigger] emit(bytes, seq![token]) == emit_token(bytes, token),
{
    let tokens = seq![token];
    let first = emit_token(bytes, token);
    assert(tokens.skip(1) =~= Seq::<Token>::empty());
    assert(emit(first.bytes, tokens.skip(1)) == (Written { bytes: first.bytes, error: None }));
}

/// The bytes of all steps.
pub open spec fn flat(tokens: Seq<Token>) -> Seq<u8>
    decreases tokens.len(),
{
    if tokens.len() == 0 {
        Seq::empty()
    } else {
        token_bytes(tokens[0]) + flat(tokens.skip(1))
    }
}

/// Whether every length fits its four bytes.
pub open spec fn sizes_fit(tokens: Seq<Token>) -> bool {
    forall|i: int| 0 <= i < tokens.len() ==> token_fits(#[trigger] tokens[i])
}

pub open spec fn token_fits(token: Token) -> bool {
    match token {
        Token::Size(n) => n <= u32::MAX,
        Token::Raw(_) => true,
    }
}

pub broadcast proof fn lemma_flat_add(a: Seq<Token>, b: Seq<Token>)
    ensures
        #[trigger] flat(a + b) == flat(a) + flat(b),
    decreases a.len(),
{
    if a.len() == 0 {
        assert(a + b =~= b);
        assert(flat(a) + flat(b) =~= flat(b));
    } else {
        assert((a + b).skip(1) =~= a.skip(1) + b);
        lemma_flat_add(a.skip(1), b);
        assert(flat(a + b) =~= flat(a) + flat(b));
    }
}

pub broadcast proof fn lemma_flat_one(token: Token)
    ensures
        #[trigger] flat(seq![token]) == token_bytes(token),
{
    reveal_with_fuel(flat, 2);
    assert(seq![token].skip(1) =~= Seq::<Token>::empty());
    assert(flat(seq![token]) =~= token_bytes(token));
}

pub broadcast proof fn lemma_sizes_fit_add(a: Seq<Token>, b: Seq<Token>)
    ensures
        #[trigger] sizes_fit(a + b) <==> sizes_fit(a) && sizes_fit(b),
{
    if sizes_fit(a + b) {
        assert forall|i: int| 0 <= i < a.len() implies token_fits(#[trigger] a[i]) by {
            assert((a + b)[i] == a[i]);
        }
        assert forall|i: int| 0 <= i < b.len() implies token_fits(#[trigger] b[i]) by {
            assert((a + b)[a.len() + i] == b[i]);
        }
    }
}

pub broadcast proof fn lemma_sizes_fit_one(token: Token)
    ensures
        #[trigger] sizes_fit(seq![token]) <==> token_fits(token),
{
    assert(seq![token][0] == token);
}

pub broadcast group group_format {
    lemma_emit_add,
    lemma_emit_one,
    lemma_flat_add,
    lemma_flat_one,
    lemma_sizes_fit_add,
    lemma_sizes_fit_one,
}

/// The bytes of two lists of steps are those of the first, then those of the second.
pub proof fn lemma_split(a: Seq<Token>, b: Seq<Token>, rest: Seq<u8>)
    requires
        sizes_fit(a + b),
    ensures
        sizes_fit(a),
        sizes_fit(b),
        flat(a + b) + rest == flat(a) + (flat(b) + rest),
{
    lemma_sizes_fit_add(a, b);
    lemma_flat_add(a, b);
    assert(flat(a) + flat(b) + rest =~= flat(a) + (flat(b) + rest));
}

/// Bytes of one list of steps, then of another, are those of both.
pub proof fn lemma_joined(a: Seq<Token>, b: Seq<Token>, s: Seq<u8>, r: Seq<u8>, rest: Seq<u8>)
    requires
        sizes_fit(a),
        sizes_fit(b),
        s == flat(a) + r,
        r == flat(b) + rest,
    ensures
        sizes_fit(a + b),
        s == flat(a + b) + rest,
{
    lemma_sizes_fit_add(a, b);
    lemma_flat_add(a, b);
    assert(s =~= flat(a + b) + rest);
}

/// Writing succeeds if and only if every length fits and so do the bytes. Then the bytes of the
/// steps are what is appended.
pub proof fn law_emit_succeeds(bytes: Seq<u8>, tokens: Seq<Token>)
    requires
        bytes.len() <= isize::MAX,
    ensures
        emit(bytes, tokens).error is None <==> sizes_fit(tokens) && bytes.len() + flat(tokens).len()
            <= isize::MAX,
        emit(bytes, tokens).error is None ==> emit(bytes, tokens).bytes == bytes + flat(tokens),
    decreases tokens.len(),
{
    if tokens.len() == 0 {
        assert(bytes + flat(tokens) =~= bytes);
    } else {
        let first = emit_token(bytes, tokens[0]);
        let rest = tokens.skip(1);
        assert(tokens =~= seq![tokens[0]] + rest);
        lemma_sizes_fit_add(seq![tokens[0]], rest);
        lemma_sizes_fit_one(tokens[0]);
        if first.error is None {
            law_emit_succeeds(first.bytes, rest);
            assert(bytes + flat(tokens) =~= first.bytes + flat(rest));
        }
    }
}

/// A value that can be written.
pub trait SerializeBytes: DeepView {
    /// The steps of writing a value.
    spec fn tokens(v: <Self as DeepView>::V) -> Seq<Token>;

    /// Appends the value to the buffer. Where an error ends it, what was written before stays.
    fn serialize(&self, out: &mut Vec<u8>) -> (result: Result<(), SerializationError>)
        ensures
            emit(old(out)@, Self::tokens(self.deep_view())) == (Written {
                bytes: final(out)@,
                error: result.err(),
            }),
    ;
}

/// What comes of reading: a value and what is left, or an error and what was left then.
pub type Parsed<V> = Result<(V, Seq<u8>), (SerializationError, Seq<u8>)>;

/// A value that can be read back.
pub trait DeserializeBytes: SerializeBytes + Sized {
    /// Whether reading accepts a value.
    spec fn accepted(v: <Self as DeepView>::V) -> bool;

    /// What comes of reading a value from bytes.
    spec fn parse(s: Seq<u8>) -> Parsed<<Self as DeepView>::V>;

    /// Takes a value from the front of the buffer.
    fn deserialize(buf: &mut &[u8]) -> (result: Result<Self, SerializationError>)
        ensures
            match result {
                Ok(v) => Self::parse(old(buf)@) == Ok::<
                    (<Self as DeepView>::V, Seq<u8>),
                    (SerializationError, Seq<u8>),
                >((v.deep_view(), final(buf)@)),
                Err(e) => Self::parse(old(buf)@) == Err::<
                    (<Self as DeepView>::V, Seq<u8>),
                    (SerializationError, Seq<u8>),
                >((e, final(buf)@)),
            },
    ;

    /// What was written is read back, whatever follows it.
    proof fn law_round_trip(v: <Self as DeepView>::V, rest: Seq<u8>)
        requires
            Self::accepted(v),
            sizes_fit(Self::tokens(v)),
        ensures
            Self::parse(flat(Self::tokens(v)) + rest) == Ok::<
                (<Self as DeepView>::V, Seq<u8>),
                (SerializationError, Seq<u8>),
            >((v, rest)),
    ;

    /// What is read was written: the bytes that were taken are those of the value, and reading
    /// accepts it.
    proof fn law_canonical(s: Seq<u8>)
        ensures
            Self::parse(s) matches Ok((v, rest)) ==> Self::accepted(v) && sizes_fit(
                Self::tokens(v),
            ) && s == flat(Self::tokens(v)) + rest,
    ;
}

} // verus!
