//! The byte buffers of the `bytes` crate, as the wire code uses them.
//!
//! `BytesMut` and `Bytes` stay opaque to the proofs; what they hold is named by
//! `bytes_mut_contents` and `bytes_contents`, and every method the library
//! calls has a wrapper whose contract says what the method does to them.
use vstd::prelude::*;
use bytes::{Buf, BufMut, Bytes, BytesMut};
use crate::encoding::be_signed;

verus! {

/// `bytes::BytesMut`, a growable byte buffer.
#[verifier::external_type_specification]
#[verifier::external_body]
pub struct ExBytesMut(bytes::BytesMut);

/// `bytes::Bytes`, an immutable byte buffer.
#[verifier::external_type_specification]
#[verifier::external_body]
pub struct ExBytes(bytes::Bytes);

/// The bytes that a `BytesMut` holds, in order.
pub uninterp spec fn bytes_mut_contents(b: BytesMut) -> Seq<u8>;

/// The bytes that a `Bytes` holds, in order.
pub uninterp spec fn bytes_contents(b: Bytes) -> Seq<u8>;

/// `BytesMut::new`: an empty buffer.
#[verifier::external_body]
pub(crate) fn bm_new() -> (r: BytesMut)
    ensures
        bytes_mut_contents(r) == Seq::<u8>::empty(),
{
    BytesMut::new()
}

/// `BytesMut::with_capacity`: an empty buffer (the capacity is not modelled).
#[verifier::external_body]
pub(crate) fn bm_with_capacity(capacity: usize) -> (r: BytesMut)
    ensures
        bytes_mut_contents(r) == Seq::<u8>::empty(),
{
    BytesMut::with_capacity(capacity)
}

/// `BytesMut::from(&[u8])`: a buffer holding a copy of the slice.
#[verifier::external_body]
pub(crate) fn bm_from_slice(s: &[u8]) -> (r: BytesMut)
    ensures
        bytes_mut_contents(r) == s@,
{
    BytesMut::from(s)
}

/// `BytesMut::len`: the number of bytes held.
#[verifier::external_body]
pub(crate) fn bm_len(b: &BytesMut) -> (r: usize)
    ensures
        r == bytes_mut_contents(*b).len(),
{
    b.len()
}

/// `BytesMut` seen as a slice through `Deref`: the bytes held.
#[verifier::external_body]
pub(crate) fn bm_as_slice(b: &BytesMut) -> (r: &[u8])
    ensures
        r@ == bytes_mut_contents(*b),
{
    &b[..]
}

/// `BufMut::put_u8` on a `BytesMut`: appends one byte. (A buffer that would
/// grow past `isize::MAX` bytes makes it panic; the contract leaves that
/// unsaid, as no buffer held in memory comes near it.)
#[verifier::external_body]
pub(crate) fn bm_put_u8(b: &mut BytesMut, v: u8)
    ensures
        bytes_mut_contents(*final(b)) == bytes_mut_contents(*old(b)).push(v),
{
    b.put_u8(v)
}

/// `BytesMut::extend_from_slice`: appends the bytes of the slice. (A buffer
/// that would grow past `isize::MAX` bytes makes it panic; the contract leaves
/// that unsaid, as no buffer held in memory comes near it.)
#[verifier::external_body]
pub(crate) fn bm_extend_from_slice(b: &mut BytesMut, s: &[u8])
    ensures
        bytes_mut_contents(*final(b)) == bytes_mut_contents(*old(b)) + s@,
{
    b.extend_from_slice(s)
}

/// `Buf::advance` on a `BytesMut`: drops the first `n` bytes (it panics past the end).
#[verifier::external_body]
pub(crate) fn bm_advance(b: &mut BytesMut, n: usize)
    requires
        n <= bytes_mut_contents(*old(b)).len(),
    ensures
        bytes_mut_contents(*final(b)) == bytes_mut_contents(*old(b)).skip(n as int),
{
    b.advance(n)
}

/// `BytesMut::clear`: removes every byte.
#[verifier::external_body]
pub(crate) fn bm_clear(b: &mut BytesMut)
    ensures
        bytes_mut_contents(*final(b)) == Seq::<u8>::empty(),
{
    b.clear()
}

/// `BytesMut::split`: hands out every byte held and leaves the buffer empty.
#[verifier::external_body]
pub(crate) fn bm_split(b: &mut BytesMut) -> (r: BytesMut)
    ensures
        bytes_mut_contents(r) == bytes_mut_contents(*old(b)),
        bytes_mut_contents(*final(b)) == Seq::<u8>::empty(),
{
    b.split()
}

/// `BytesMut::clone`: a buffer with the same bytes.
#[verifier::external_body]
pub(crate) fn bm_clone(b: &BytesMut) -> (r: BytesMut)
    ensures
        bytes_mut_contents(r) == bytes_mut_contents(*b),
{
    b.clone()
}

/// `BytesMut::freeze`: the same bytes as an immutable `Bytes`.
#[verifier::external_body]
pub(crate) fn bm_freeze(b: BytesMut) -> (r: Bytes)
    ensures
        bytes_contents(r) == bytes_mut_contents(b),
{
    b.freeze()
}

/// `Bytes::clone`: another handle on the same bytes.
pub assume_specification[ <bytes::Bytes as Clone>::clone ](b: &Bytes) -> (r: Bytes)
    ensures
        bytes_contents(r) == bytes_contents(*b),
;

/// `Bytes` seen as a slice through `Deref`: the bytes held.
#[verifier::external_body]
pub(crate) fn bytes_as_slice(b: &Bytes) -> (r: &[u8])
    ensures
        r@ == bytes_contents(*b),
{
    &b[..]
}

/// `Buf::get_i8` on a `BytesMut`: the first byte as a signed integer; it is consumed.
#[verifier::external_body]
pub(crate) fn bm_get_i8(b: &mut BytesMut) -> (r: i8)
    requires
        1 <= bytes_mut_contents(*old(b)).len(),
    ensures
        r as int == be_signed(bytes_mut_contents(*old(b)).take(1)),
        bytes_mut_contents(*final(b)) == bytes_mut_contents(*old(b)).skip(1),
{
    b.get_i8()
}

/// `Buf::get_i16` on a `BytesMut`: the first 2 bytes as a big-endian signed integer; they are consumed.
#[verifier::external_body]
pub(crate) fn bm_get_i16(b: &mut BytesMut) -> (r: i16)
    requires
        2 <= bytes_mut_contents(*old(b)).len(),
    ensures
        r as int == be_signed(bytes_mut_contents(*old(b)).take(2)),
        bytes_mut_contents(*final(b)) == bytes_mut_contents(*old(b)).skip(2),
{
    b.get_i16()
}

/// `Buf::get_i32` on a `BytesMut`: the first 4 bytes as a big-endian signed integer; they are consumed.
#[verifier::external_body]
pub(crate) fn bm_get_i32(b: &mut BytesMut) -> (r: i32)
    requires
        4 <= bytes_mut_contents(*old(b)).len(),
    ensures
        r as int == be_signed(bytes_mut_contents(*old(b)).take(4)),
        bytes_mut_contents(*final(b)) == bytes_mut_contents(*old(b)).skip(4),
{
    b.get_i32()
}

/// `Buf::get_i64` on a `BytesMut`: the first 8 bytes as a big-endian signed integer; they are consumed.
#[verifier::external_body]
pub(crate) fn bm_get_i64(b: &mut BytesMut) -> (r: i64)
    requires
        8 <= bytes_mut_contents(*old(b)).len(),
    ensures
        r as int == be_signed(bytes_mut_contents(*old(b)).take(8)),
        bytes_mut_contents(*final(b)) == bytes_mut_contents(*old(b)).skip(8),
{
    b.get_i64()
}

} // verus!
