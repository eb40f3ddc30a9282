//! `bytes::BytesMut`, the growable byte buffer that the streaming codec reads
//! frames from and writes frames to, seen through its contents and its
//! capacity.

use vstd::prelude::*;
use bytes::BytesMut;
use vstd::utf8::encode_utf8;
use std::fmt::Write;

verus! {

#[verifier::external_type_specification]
#[verifier::external_body]
pub struct ExBytesMut(bytes::BytesMut);

/// The bytes that a `BytesMut` holds.
pub uninterp spec fn buffer_contents(b: BytesMut) -> Seq<u8>;

/// How many bytes a `BytesMut` can hold before it must grow
/// (`BytesMut::capacity`): writes through `BufMut` and `fmt::Write` never
/// grow it.
pub uninterp spec fn buffer_capacity(b: BytesMut) -> nat;

/// Calls `BytesMut::len`: the number of bytes held.
#[verifier::external_body]
pub(crate) fn buffer_len(b: &BytesMut) -> (n: usize)
    ensures
        n == buffer_contents(*b).len(),
{
    b.len()
}

/// Calls `BytesMut::capacity`: how many bytes the buffer can hold before it
/// must grow.
#[verifier::external_body]
pub(crate) fn buffer_capacity_of(b: &BytesMut) -> (n: usize)
    ensures
        n == buffer_capacity(*b),
{
    b.capacity()
}

/// Calls `<BytesMut as Deref>::deref`: the bytes held, as a slice.
#[verifier::external_body]
pub(crate) fn buffer_as_slice(b: &BytesMut) -> (s: &[u8])
    ensures
        s@ == buffer_contents(*b),
{
    &**b
}

/// Calls `BytesMut::reserve`: the contents stay; when fewer than
/// `additional` bytes are free the capacity grows to at least
/// `len + additional`, else nothing changes. It panics when the new
/// capacity overflows, so `len + additional` must stay within `isize::MAX`.
#[verifier::external_body]
pub(crate) fn buffer_reserve(b: &mut BytesMut, additional: usize)
    requires
        buffer_contents(*old(b)).len() + additional <= isize::MAX,
    ensures
        buffer_contents(*final(b)) == buffer_contents(*old(b)),
        buffer_capacity(*old(b)) >= buffer_contents(*old(b)).len() + additional ==> buffer_capacity(
            *final(b),
        ) == buffer_capacity(*old(b)),
        buffer_capacity(*final(b)) >= buffer_contents(*old(b)).len() + additional,
{
    b.reserve(additional)
}

/// Calls `<BytesMut as BufMut>::put_u8`, which appends one byte; it panics
/// when the buffer is full, so a free byte is required.
#[verifier::external_body]
pub(crate) fn buffer_put_u8(b: &mut BytesMut, n: u8)
    requires
        buffer_contents(*old(b)).len() < buffer_capacity(*old(b)),
    ensures
        buffer_contents(*final(b)) == buffer_contents(*old(b)).push(n),
        buffer_capacity(*final(b)) == buffer_capacity(*old(b)),
{
    bytes::BufMut::put_u8(b, n)
}

/// Calls `<BytesMut as fmt::Write>::write_str`, which appends the UTF-8 bytes
/// of `s` when that many bytes are free, and otherwise fails and leaves the
/// buffer as it was.
#[verifier::external_body]
pub(crate) fn buffer_write_str(b: &mut BytesMut, s: &str) -> (ok: bool)
    ensures
        ok == (buffer_capacity(*old(b)) - buffer_contents(*old(b)).len() >= encode_utf8(s@).len()),
        ok ==> buffer_contents(*final(b)) == buffer_contents(*old(b)) + encode_utf8(s@),
        ok ==> buffer_capacity(*final(b)) == buffer_capacity(*old(b)),
        !ok ==> *final(b) == *old(b),
{
    b.write_str(s).is_ok()
}

/// Calls `BytesMut::split_to`, which detaches the first `at` bytes; it
/// panics when `at` exceeds the length.
#[verifier::external_body]
pub(crate) fn buffer_split_to(b: &mut BytesMut, at: usize) -> (front: BytesMut)
    requires
        at <= buffer_contents(*old(b)).len(),
    ensures
        buffer_contents(front) == buffer_contents(*old(b)).take(at as int),
        buffer_contents(*final(b)) == buffer_contents(*old(b)).skip(at as int),
{
    b.split_to(at)
}

} // verus!
