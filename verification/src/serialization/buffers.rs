//! Reading from byte slices and writing to byte vectors, through the `bytes` crate.

use bytes::{Buf, BufMut};
use vstd::prelude::*;
use vstd::utf8::{decode_utf8, valid_utf8};

use crate::serialization::little_endian::{le_bytes, le_value};

verus! {

/// `bytes::BufMut::remaining_mut` on a `Vec<u8>`: how many bytes more the vector can hold. Claimed:
/// with those it has, that makes `isize::MAX`.
#[verifier::external_body]
pub(crate) fn remaining_mut(out: &Vec<u8>) -> (n: usize)
    ensures
        n + out@.len() == isize::MAX,
{
    out.remaining_mut()
}

/// `bytes::BufMut::put_u8` on a `Vec<u8>`. Claimed: the byte is appended.
#[verifier::external_body]
pub(crate) fn put_u8(out: &mut Vec<u8>, v: u8)
    requires
        old(out)@.len() + 1 <= isize::MAX,
    ensures
        final(out)@ == old(out)@ + seq![v],
{
    out.put_u8(v)
}

/// `bytes::BufMut::put_u32_le` on a `Vec<u8>`. Claimed: the four bytes of the number are appended,
/// the lowest first.
#[verifier::external_body]
pub(crate) fn put_u32_le(out: &mut Vec<u8>, v: u32)
    requires
        old(out)@.len() + 4 <= isize::MAX,
    ensures
        final(out)@ == old(out)@ + le_bytes(v as nat, 4),
{
    out.put_u32_le(v)
}

/// `bytes::BufMut::put_u64_le` on a `Vec<u8>`. Claimed: the eight bytes of the number are appended,
/// the lowest first.
#[verifier::external_body]
pub(crate) fn put_u64_le(out: &mut Vec<u8>, v: u64)
    requires
        old(out)@.len() + 8 <= isize::MAX,
    ensures
        final(out)@ == old(out)@ + le_bytes(v as nat, 8),
{
    out.put_u64_le(v)
}

/// `bytes::BufMut::put_slice` on a `Vec<u8>`. Claimed: the bytes are appended.
#[verifier::external_body]
pub(crate) fn put_slice(out: &mut Vec<u8>, src: &[u8])
    requires
        old(out)@.len() + src@.len() <= isize::MAX,
    ensures
        final(out)@ == old(out)@ + src@,
{
    out.put_slice(src)
}

/// `bytes::Buf::remaining` on a byte slice. Claimed: it is the number of bytes not read yet.
#[verifier::external_body]
pub(crate) fn remaining(buf: &&[u8]) -> (n: usize)
    ensures
        n == buf@.len(),
{
    buf.remaining()
}

/// `bytes::Buf::get_u8` on a byte slice. Claimed: it takes the first byte and moves past it.
#[verifier::external_body]
pub(crate) fn get_u8(buf: &mut &[u8]) -> (v: u8)
    requires
        old(buf)@.len() >= 1,
    ensures
        v == old(buf)@[0],
        final(buf)@ == old(buf)@.skip(1),
{
    buf.get_u8()
}

/// `bytes::Buf::get_u32_le` on a byte slice. Claimed: it takes the number that the first four bytes
/// stand for, the lowest first, and moves past them.
#[verifier::external_body]
pub(crate) fn get_u32_le(buf: &mut &[u8]) -> (v: u32)
    requires
        old(buf)@.len() >= 4,
    ensures
        v as nat == le_value(old(buf)@.take(4)),
        final(buf)@ == old(buf)@.skip(4),
{
    buf.get_u32_le()
}

/// `bytes::Buf::get_u64_le` on a byte slice. Claimed: it takes the number that the first eight
/// bytes stand for, the lowest first, and moves past them.
#[verifier::external_body]
pub(crate) fn get_u64_le(buf: &mut &[u8]) -> (v: u64)
    requires
        old(buf)@.len() >= 8,
    ensures
        v as nat == le_value(old(buf)@.take(8)),
        final(buf)@ == old(buf)@.skip(8),
{
    buf.get_u64_le()
}

/// `bytes::Buf::copy_to_slice` on a byte slice. Claimed: it fills the destination with the first
/// bytes and moves past them.
#[verifier::external_body]
pub(crate) fn copy_to_slice(buf: &mut &[u8], dst: &mut Vec<u8>)
    requires
        old(dst)@.len() <= old(buf)@.len(),
    ensures
        final(dst)@ == old(buf)@.take(old(dst)@.len() as int),
        final(buf)@ == old(buf)@.skip(old(dst)@.len() as int),
{
    buf.copy_to_slice(dst)
}

/// `String::from_utf8`. Claimed: it is the text that the bytes encode, if and only if they are
/// well-formed UTF-8.
#[verifier::external_body]
pub(crate) fn string_from_utf8(bytes: Vec<u8>) -> (text: Option<String>)
    ensures
        text is Some <==> valid_utf8(bytes@),
        text matches Some(s) ==> s@ == decode_utf8(bytes@),
{
    String::from_utf8(bytes).ok()
}

} // verus!
