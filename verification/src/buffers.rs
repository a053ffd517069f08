//! The byte buffers of the `bytes` crate, as the protocol code uses them.
//!
//! Each buffer is opaque to the verifier; what it holds is named by
//! `bytes_mut_contents` and `bytes_contents`, and every operation the
//! library performs on a buffer goes through one of the trusted functions
//! below, whose contract restates what the crate's documentation and source
//! say the operation does to those contents.
use bytes::{Buf, Bytes, BytesMut};
use vstd::prelude::*;

verus! {

/// The growable byte buffer of the `bytes` crate.
#[verifier::external_type_specification]
#[verifier::external_body]
pub struct ExBytesMut(bytes::BytesMut);

/// The frozen, shareable byte buffer of the `bytes` crate.
#[verifier::external_type_specification]
#[verifier::external_body]
pub struct ExBytes(bytes::Bytes);

/// The bytes a `BytesMut` holds, in order.
pub uninterp spec fn bytes_mut_contents(b: BytesMut) -> Seq<u8>;

/// The bytes a `Bytes` holds, in order.
pub uninterp spec fn bytes_contents(b: Bytes) -> Seq<u8>;

/// `BytesMut::with_capacity`: an empty buffer (its capacity is not modelled).
/// The allocation panics beyond `isize::MAX` bytes, hence the bound.
#[verifier::external_body]
pub fn bytes_mut_with_capacity(capacity: usize) -> (b: BytesMut)
    requires
        capacity <= isize::MAX,
    ensures
        bytes_mut_contents(b) == Seq::<u8>::empty(),
{
    BytesMut::with_capacity(capacity)
}

/// `<BytesMut as From<&[u8]>>::from`: a buffer holding a copy of `s`.
#[verifier::external_body]
pub fn bytes_mut_from_slice(s: &[u8]) -> (b: BytesMut)
    ensures
        bytes_mut_contents(b) == s@,
{
    BytesMut::from(s)
}

/// `BytesMut::extend_from_slice`: appends `extra` at the end. Growing past
/// `isize::MAX` bytes panics, hence the bound.
#[verifier::external_body]
pub fn bytes_mut_extend(b: &mut BytesMut, extra: &[u8])
    requires
        bytes_mut_contents(*old(b)).len() + extra@.len() <= isize::MAX,
    ensures
        bytes_mut_contents(*final(b)) == bytes_mut_contents(*old(b)) + extra@,
{
    b.extend_from_slice(extra)
}

/// `<BytesMut as Deref>::deref`: the held bytes as a slice.
#[verifier::external_body]
pub fn bytes_mut_as_slice(b: &BytesMut) -> (s: &[u8])
    ensures
        s@ == bytes_mut_contents(*b),
{
    b
}

/// How many bytes `b` holds.
pub fn bytes_mut_len(b: &BytesMut) -> (n: usize)
    ensures
        n == bytes_mut_contents(*b).len(),
{
    bytes_mut_as_slice(b).len()
}

/// `<BytesMut as Buf>::advance`: drops the first `count` bytes. It panics
/// when `count` exceeds the length, hence the bound.
#[verifier::external_body]
pub fn bytes_mut_advance(b: &mut BytesMut, count: usize)
    requires
        count <= bytes_mut_contents(*old(b)).len(),
    ensures
        bytes_mut_contents(*final(b)) == bytes_mut_contents(*old(b)).skip(count as int),
{
    b.advance(count)
}

/// `BytesMut::split_to`: the first `at` bytes leave the buffer and are
/// returned. It panics when `at` exceeds the length, hence the bound.
#[verifier::external_body]
pub fn bytes_mut_split_to(b: &mut BytesMut, at: usize) -> (head: BytesMut)
    requires
        at <= bytes_mut_contents(*old(b)).len(),
    ensures
        bytes_mut_contents(head) == bytes_mut_contents(*old(b)).take(at as int),
        bytes_mut_contents(*final(b)) == bytes_mut_contents(*old(b)).skip(at as int),
{
    b.split_to(at)
}

/// `BytesMut::reserve`: makes room for `additional` more bytes; the held
/// bytes are unchanged. A capacity past `isize::MAX` bytes panics, hence the
/// bound.
#[verifier::external_body]
pub fn bytes_mut_reserve(b: &mut BytesMut, additional: usize)
    requires
        bytes_mut_contents(*old(b)).len() + additional <= isize::MAX,
    ensures
        bytes_mut_contents(*final(b)) == bytes_mut_contents(*old(b)),
{
    b.reserve(additional)
}

/// `BytesMut::freeze`: the same bytes as an immutable `Bytes`.
#[verifier::external_body]
pub fn bytes_mut_freeze(b: BytesMut) -> (r: Bytes)
    ensures
        bytes_contents(r) == bytes_mut_contents(b),
{
    b.freeze()
}

} // verus!
