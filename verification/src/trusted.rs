//! The calls that leave this crate: the `bytes` buffer that the encoders fill,
//! and the UTF-8 check of the standard library.
//!
//! Nothing in this file is proved. Each contract restates what the called
//! function documents, and the rest of the crate is verified against it.

use crate::wire::{spec_u16_be, spec_u32_be};
use bytes::BufMut;
use bytes::BytesMut;
use std::string::FromUtf8Error;
use vstd::prelude::*;
use vstd::utf8::{decode_utf8, valid_utf8};

verus! {

#[verifier::external_type_specification]
#[verifier::external_body]
pub struct ExBytesMut(BytesMut);

#[verifier::external_type_specification]
#[verifier::external_body]
pub struct ExFromUtf8Error(FromUtf8Error);

/// The bytes that a buffer holds, first written first.
pub uninterp spec fn buf_bytes(buf: BytesMut) -> Seq<u8>;

/// `BytesMut::new`: a buffer that holds no bytes.
#[verifier::external_body]
pub(crate) fn buf_new() -> (buf: BytesMut)
    ensures
        buf_bytes(buf) == Seq::<u8>::empty(),
{
    BytesMut::new()
}

/// `BytesMut::with_capacity`: a buffer that holds no bytes, with room for
/// `capacity` of them. The capacity is no part of the contents.
#[verifier::external_body]
pub(crate) fn buf_with_capacity(capacity: usize) -> (buf: BytesMut)
    requires
        capacity <= isize::MAX,
    ensures
        buf_bytes(buf) == Seq::<u8>::empty(),
{
    BytesMut::with_capacity(capacity)
}

/// `BufMut::put_u8` on a `BytesMut`: appends the byte. The buffer grows as
/// needed; as with `Vec`, running out of memory is not modelled.
#[verifier::external_body]
pub(crate) fn buf_put_u8(buf: &mut BytesMut, n: u8)
    ensures
        buf_bytes(*final(buf)) == buf_bytes(*old(buf)).push(n),
{
    buf.put_u8(n)
}

/// `BufMut::put_u16` on a `BytesMut`: appends the two bytes of `n` in
/// big-endian order.
#[verifier::external_body]
pub(crate) fn buf_put_u16(buf: &mut BytesMut, n: u16)
    ensures
        buf_bytes(*final(buf)) == buf_bytes(*old(buf)) + spec_u16_be(n),
{
    buf.put_u16(n)
}

/// `BufMut::put_u32` on a `BytesMut`: appends the four bytes of `n` in
/// big-endian order.
#[verifier::external_body]
pub(crate) fn buf_put_u32(buf: &mut BytesMut, n: u32)
    ensures
        buf_bytes(*final(buf)) == buf_bytes(*old(buf)) + spec_u32_be(n),
{
    buf.put_u32(n)
}

/// `BytesMut::extend_from_slice`: appends the bytes of the slice, in order.
#[verifier::external_body]
pub(crate) fn buf_extend_from_slice(buf: &mut BytesMut, extend: &[u8])
    ensures
        buf_bytes(*final(buf)) == buf_bytes(*old(buf)) + extend@,
{
    buf.extend_from_slice(extend)
}

/// `From<BytesMut> for Vec<u8>`: the vector holds the buffer's bytes.
#[verifier::external_body]
pub(crate) fn buf_into_vec(buf: BytesMut) -> (v: Vec<u8>)
    ensures
        v@ == buf_bytes(buf),
{
    buf.into()
}

/// `String::from_utf8`: succeeds exactly on valid UTF-8, and the string then
/// holds the characters that the bytes encode.
#[verifier::external_body]
pub(crate) fn string_from_utf8(bytes: Vec<u8>) -> (r: Result<String, FromUtf8Error>)
    ensures
        r is Ok <==> valid_utf8(bytes@),
        r matches Ok(s) ==> s@ == decode_utf8(bytes@),
{
    String::from_utf8(bytes)
}

} // verus!
