//! The byte buffer that the codec reads from and writes to.
//!
//! `bytes::BytesMut` is kept as it is. Nothing inside it is visible to the
//! verifier, so its contents get a name, [`buf_bytes`], and each method the
//! codec calls gets a contract over that name. None of these contracts is
//! proved here: they restate what the methods document.

use vstd::prelude::*;
use bytes::BytesMut;

verus! {

#[verifier::external_type_specification]
#[verifier::external_body]
pub struct ExBytesMut(bytes::BytesMut);

/// The bytes that a buffer holds, first to last.
pub uninterp spec fn buf_bytes(buf: &BytesMut) -> Seq<u8>;

/// `AsRef<[u8]>::as_ref` of `BytesMut`: the buffer's bytes as a slice.
/// Believed: the slice holds exactly the buffer's contents.
#[verifier::external_body]
pub(crate) fn as_slice(buf: &BytesMut) -> (bytes: &[u8])
    ensures
        bytes@ == buf_bytes(buf),
{
    buf.as_ref()
}

/// `BytesMut::split_to`: cuts the first `at` bytes off the buffer and hands
/// them back as a buffer of their own. It panics when `at` is past the end,
/// which the precondition rules out. Believed: the result holds elements
/// `[0, at)` and the buffer keeps elements `[at, len)`.
#[verifier::external_body]
pub(crate) fn split_to(buf: &mut BytesMut, at: usize) -> (head: BytesMut)
    requires
        at <= buf_bytes(old(buf)).len(),
    ensures
        buf_bytes(&head) == buf_bytes(old(buf)).subrange(0, at as int),
        buf_bytes(final(buf)) == buf_bytes(old(buf)).skip(at as int),
{
    buf.split_to(at)
}

/// `BytesMut::extend_from_slice`: appends the slice, growing the buffer when
/// it has to. Growing panics when the new length does not fit in `usize`,
/// which the precondition rules out. Believed: the buffer then holds its old
/// contents followed by the slice.
#[verifier::external_body]
pub(crate) fn extend_from_slice(buf: &mut BytesMut, extend: &[u8])
    requires
        buf_bytes(old(buf)).len() + extend@.len() <= usize::MAX,
    ensures
        buf_bytes(final(buf)) == buf_bytes(old(buf)) + extend@,
{
    buf.extend_from_slice(extend)
}

} // verus!
