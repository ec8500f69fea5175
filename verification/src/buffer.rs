//! The connection buffer: `bytes::BytesMut`, seen through the sequence of
//! bytes it holds.

use bytes::{Buf, BytesMut};
use vstd::prelude::*;

verus! {

#[verifier::external_type_specification]
#[verifier::external_body]
pub struct ExBytesMut(BytesMut);

/// The unconsumed bytes that a buffer holds, first to last.
pub uninterp spec fn buffered(buf: BytesMut) -> Seq<u8>;

/// `BytesMut::split_to`: the returned buffer holds the first `at` bytes, the
/// receiver keeps the bytes from `at` on. The method panics when `at` exceeds
/// the length, which the precondition rules out.
pub assume_specification[ BytesMut::split_to ](buf: &mut BytesMut, at: usize) -> (head: BytesMut)
    requires
        at <= buffered(*old(buf)).len(),
    ensures
        buffered(head) == buffered(*old(buf)).take(at as int),
        buffered(*final(buf)) == buffered(*old(buf)).skip(at as int),
;

/// `Deref` of `BytesMut`: the slice over exactly the bytes the buffer holds.
#[verifier::external_body]
pub(crate) fn contents(buf: &BytesMut) -> (s: &[u8])
    ensures
        s@ == buffered(*buf),
{
    &buf[..]
}

/// `Buf::advance` on `BytesMut`: drops the first `cnt` bytes and keeps the
/// rest. The method panics when `cnt` exceeds the length, which the
/// precondition rules out.
#[verifier::external_body]
pub(crate) fn advance(buf: &mut BytesMut, cnt: usize)
    requires
        cnt <= buffered(*old(buf)).len(),
    ensures
        buffered(*final(buf)) == buffered(*old(buf)).skip(cnt as int),
{
    buf.advance(cnt)
}

} // verus!
