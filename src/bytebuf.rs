//! Byte buffers of the `bytes` crate: the growable `BytesMut` the head is
//! written into, and the shared, cheaply split `Bytes` of body chunks.
use vstd::prelude::*;
use bytes::{Bytes, BytesMut};

verus! {

#[verifier::external_type_specification]
#[verifier::external_body]
pub struct ExBytes(bytes::Bytes);

#[verifier::external_type_specification]
#[verifier::external_body]
pub struct ExBytesMut(bytes::BytesMut);

/// The bytes a `Bytes` holds.
pub uninterp spec fn bytes_of(b: Bytes) -> Seq<u8>;

/// The bytes a `BytesMut` holds.
pub uninterp spec fn bytes_mut_of(b: BytesMut) -> Seq<u8>;

/// Relies on `BytesMut::new`: an empty buffer.
#[verifier::external_body]
pub(crate) fn bytes_mut_new() -> (r: BytesMut)
    ensures
        bytes_mut_of(r) == Seq::<u8>::empty(),
{
    BytesMut::new()
}

/// Relies on `BufMut::put_slice` for `BytesMut`: appends the slice.
#[verifier::external_body]
pub(crate) fn put_slice(b: &mut BytesMut, s: &[u8])
    ensures
        bytes_mut_of(*final(b)) == bytes_mut_of(*old(b)) + s@,
{
    bytes::BufMut::put_slice(b, s)
}

/// Relies on `BytesMut::split` and `BytesMut::freeze`: takes out all the
/// bytes, leaving the buffer empty.
#[verifier::external_body]
pub(crate) fn split_freeze(b: &mut BytesMut) -> (r: Bytes)
    ensures
        bytes_of(r) == bytes_mut_of(*old(b)),
        bytes_mut_of(*final(b)) == Seq::<u8>::empty(),
{
    b.split().freeze()
}

/// Relies on `Bytes::len`.
#[verifier::external_body]
pub(crate) fn bytes_len(b: &Bytes) -> (r: usize)
    ensures
        r == bytes_of(*b).len(),
{
    b.len()
}

/// Relies on `Bytes` dereferencing to its bytes.
#[verifier::external_body]
pub(crate) fn bytes_slice(b: &Bytes) -> (r: &[u8])
    ensures
        r@ == bytes_of(*b),
{
    b.as_ref()
}

/// Relies on `Bytes::split_to`: the first `at` bytes; the rest stay behind.
#[verifier::external_body]
pub(crate) fn split_to(b: &mut Bytes, at: usize) -> (r: Bytes)
    requires
        at <= bytes_of(*old(b)).len(),
    ensures
        bytes_of(r) == bytes_of(*old(b)).take(at as int),
        bytes_of(*final(b)) == bytes_of(*old(b)).skip(at as int),
{
    b.split_to(at)
}

/// Relies on `From<Vec<u8>>` for `Bytes`: the same bytes, without copying.
#[verifier::external_body]
pub(crate) fn bytes_from_vec(v: Vec<u8>) -> (r: Bytes)
    ensures
        bytes_of(r) == v@,
{
    Bytes::from(v)
}

} // verus!
