//! The trusted surface over `bytes::BytesMut`.
//!
//! The crate stores text in [`bytes::BytesMut`], an outside growable byte
//! buffer. Verus cannot look inside it, so the type is declared opaque, its
//! contents are named by [`bm_bytes`], and each operation the crate needs is
//! wrapped in a function whose contract states, over that name, what the
//! operation does to the contents.

use vstd::prelude::*;

use bytes::BytesMut;

verus! {

#[verifier::external_type_specification]
#[verifier::external_body]
pub struct ExBytesMut(BytesMut);

/// The bytes currently held by a `BytesMut`.
pub uninterp spec fn bm_bytes(b: BytesMut) -> Seq<u8>;

/// Relies on `BytesMut::new`: the new buffer is empty.
#[verifier::external_body]
pub(crate) fn bm_new() -> (r: BytesMut)
    ensures
        bm_bytes(r) == Seq::<u8>::empty(),
{
    BytesMut::new()
}

/// Relies on `BytesMut::with_capacity`: the new buffer is empty (its length
/// is 0 whatever room was reserved).
#[verifier::external_body]
pub(crate) fn bm_with_capacity(capacity: usize) -> (r: BytesMut)
    ensures
        bm_bytes(r) == Seq::<u8>::empty(),
{
    BytesMut::with_capacity(capacity)
}

/// Relies on `BytesMut::extend_from_slice`: the given bytes are appended.
#[verifier::external_body]
pub(crate) fn bm_extend(b: &mut BytesMut, s: &[u8])
    ensures
        bm_bytes(*final(b)) == bm_bytes(*old(b)) + s@,
{
    b.extend_from_slice(s);
}

/// Relies on `BytesMut::len`: the number of bytes held.
#[verifier::external_body]
pub(crate) fn bm_len(b: &BytesMut) -> (r: usize)
    ensures
        r == bm_bytes(*b).len(),
{
    b.len()
}

/// Relies on `BytesMut::capacity`. Nothing is claimed of the value: how much
/// room the allocator gave is not modelled.
#[verifier::external_body]
pub(crate) fn bm_capacity(b: &BytesMut) -> (r: usize) {
    b.capacity()
}

/// Relies on `BytesMut`'s dereference to `[u8]`: a view of the bytes held.
#[verifier::external_body]
pub(crate) fn bm_slice<'a>(b: &'a BytesMut) -> (r: &'a [u8])
    ensures
        r@ == bm_bytes(*b),
{
    b.as_ref()
}

/// Relies on `BytesMut: From<&[u8]>`: the new buffer holds a copy of the
/// given bytes.
#[verifier::external_body]
pub(crate) fn bm_from_slice(s: &[u8]) -> (r: BytesMut)
    ensures
        bm_bytes(r) == s@,
{
    BytesMut::from(s)
}

} // verus!
