//! Contracts for the reference-counted byte buffers of the `bytes` crate.
//!
//! Nothing in this module is proved. Each item states what this library relies
//! on from `bytes::Bytes` and `bytes::BytesMut`; the rest of the library is
//! verified against these statements.

use bytes::BufMut;
use bytes::Bytes;
use bytes::BytesMut;
use vstd::prelude::*;

verus! {

/// `bytes::Bytes`, an immutable, cheaply cloneable byte buffer. Opaque to the
/// verifier; its contents are named by [`bytes_seq`].
#[verifier::external_type_specification]
#[verifier::external_body]
pub struct ExBytes(bytes::Bytes);

/// `bytes::BytesMut`, a growable byte buffer. Opaque to the verifier; its
/// contents are named by [`bytes_mut_seq`].
#[verifier::external_type_specification]
#[verifier::external_body]
pub struct ExBytesMut(bytes::BytesMut);

/// The bytes that a `Bytes` holds, in order.
pub uninterp spec fn bytes_seq(b: Bytes) -> Seq<u8>;

/// The bytes that a `BytesMut` holds, in order.
pub uninterp spec fn bytes_mut_seq(b: BytesMut) -> Seq<u8>;

/// `BytesMut::with_capacity`: the new buffer holds no bytes, whatever capacity
/// was asked for. The capacity is kept within what an allocation may span.
pub assume_specification[ BytesMut::with_capacity ](capacity: usize) -> (b: BytesMut)
    requires
        capacity <= isize::MAX,
    ensures
        bytes_mut_seq(b) == Seq::<u8>::empty(),
;

/// `BytesMut::freeze`: the immutable buffer holds exactly the bytes that the
/// mutable one held.
pub assume_specification[ BytesMut::freeze ](b: BytesMut) -> (frozen: Bytes)
    ensures
        bytes_seq(frozen) == bytes_mut_seq(b),
;

/// `Bytes::split_to`: the first `at` bytes are handed out and the buffer keeps
/// the rest. The split point must lie within the buffer.
pub assume_specification[ Bytes::split_to ](b: &mut Bytes, at: usize) -> (head: Bytes)
    requires
        at <= bytes_seq(*old(b)).len(),
    ensures
        bytes_seq(head) == bytes_seq(*old(b)).subrange(0, at as int),
        bytes_seq(*final(b)) == bytes_seq(*old(b)).subrange(
            at as int,
            bytes_seq(*old(b)).len() as int,
        ),
;

/// `BufMut::put_slice` on a `BytesMut`: the bytes of `src` are appended, the
/// buffer growing as needed. The new length is kept within what an allocation
/// may span.
#[verifier::external_body]
pub(crate) fn put_slice(b: &mut BytesMut, src: &[u8])
    requires
        bytes_mut_seq(*old(b)).len() + src@.len() <= isize::MAX,
    ensures
        bytes_mut_seq(*final(b)) == bytes_mut_seq(*old(b)) + src@,
{
    b.put_slice(src)
}

/// `AsRef<[u8]>` on a `Bytes`: the slice shows exactly the bytes that the
/// buffer holds.
#[verifier::external_body]
pub(crate) fn as_slice(b: &Bytes) -> (s: &[u8])
    ensures
        s@ == bytes_seq(*b),
{
    b.as_ref()
}

} // verus!
