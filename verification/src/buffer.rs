//! The byte buffer of the `bytes` crate, as far as the codec uses it. Verus
//! does not look inside a `BytesMut`: what it holds has the name
//! [`buffered`], and the functions below say over that name what each call
//! does. Their contracts are believed, not proved.

use bytes::{Buf, BytesMut};
use vstd::prelude::*;

verus! {

/// `bytes::BytesMut`, carried through as it is.
#[verifier::external_type_specification]
#[verifier::external_body]
pub struct ExBytesMut(bytes::BytesMut);

/// The bytes that a buffer holds, the next one to be read first.
pub uninterp spec fn buffered(buf: BytesMut) -> Seq<u8>;

/// `BytesMut::as_ref`: the buffer seen as a slice, which is all the bytes it
/// holds, in order.
#[verifier::external_body]
pub(crate) fn buffer_slice(buf: &BytesMut) -> (bytes: &[u8])
    ensures
        bytes@ == buffered(*buf),
{
    buf.as_ref()
}

/// `Buf::advance` on a `BytesMut`: drops the first `count` bytes and keeps
/// the rest. The call panics when `count` is more than the buffer holds,
/// which the precondition leaves out.
#[verifier::external_body]
pub(crate) fn buffer_advance(buf: &mut BytesMut, count: usize)
    requires
        count <= buffered(*old(buf)).len(),
    ensures
        buffered(*final(buf)) == buffered(*old(buf)).skip(count as int),
{
    buf.advance(count)
}

/// `BytesMut::reserve`: makes room for `additional` more bytes and leaves
/// the bytes held as they are. The call panics when the capacity asked for
/// is more than the `isize::MAX` bytes that an allocation can have, which
/// the precondition leaves out.
#[verifier::external_body]
pub(crate) fn buffer_reserve(buf: &mut BytesMut, additional: usize)
    requires
        buffered(*old(buf)).len() + additional <= isize::MAX,
    ensures
        buffered(*final(buf)) == buffered(*old(buf)),
{
    buf.reserve(additional)
}

/// `BytesMut::extend_from_slice`: appends `extend` behind the bytes held.
/// It reserves room first, with the same panic as `reserve`, which the
/// precondition leaves out.
#[verifier::external_body]
pub(crate) fn buffer_extend(buf: &mut BytesMut, extend: &[u8])
    requires
        buffered(*old(buf)).len() + extend@.len() <= isize::MAX,
    ensures
        buffered(*final(buf)) == buffered(*old(buf)) + extend@,
{
    buf.extend_from_slice(extend)
}

} // verus!
