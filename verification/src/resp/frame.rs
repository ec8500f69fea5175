//! The frame as a tagged union, and its mathematical model.

use crate::buffer::{buffered, contents};
use crate::resp::array::{RespArray, RespNullArray};
use crate::resp::bulk_string::{BulkString, RespNullBulkString};
use crate::resp::simple_error::SimpleError;
use crate::resp::simple_string::SimpleString;
use crate::resp::wire::{
    frame_length, lemma_parse_frame_bound, lemma_scan_line_bounds, parse_frame, wire_form, Frame,
};
use crate::resp::{
    parse_length, peek_fixed_data, RespError, ARRAY_MARKER, BULK_STRING_MARKER,
    SIMPLE_ERROR_MARKER, SIMPLE_STRING_MARKER,
};
use bytes::BytesMut;
use vstd::prelude::*;
use vstd::std_specs::convert::FromSpecImpl;

verus! {

/// A frame of any variant.
#[derive(Debug, PartialEq)]
pub enum RespFrame {
    SimpleString(SimpleString),
    Error(SimpleError),
    BulkString(BulkString),
    NullBulkString(RespNullBulkString),
    Array(RespArray),
    NullArray(RespNullArray),
}

/// The frame that a frame value stands for.
pub open spec fn frame_view(frame: RespFrame) -> Frame
    decreases frame,
{
    match frame {
        RespFrame::SimpleString(s) => Frame::SimpleString(s.0@),
        RespFrame::Error(e) => Frame::SimpleError(e.0@),
        RespFrame::BulkString(b) => Frame::BulkString(b.0@),
        RespFrame::NullBulkString(_) => Frame::NullBulkString,
        RespFrame::Array(a) => Frame::Array(views(a.0@)),
        RespFrame::NullArray(_) => Frame::NullArray,
    }
}

/// The frames that a run of frame values stands for, in order.
pub open spec fn views(frames: Seq<RespFrame>) -> Seq<Frame>
    decreases frames,
{
    if frames.len() == 0 {
        Seq::empty()
    } else {
        views(frames.drop_last()).push(frame_view(frames.last()))
    }
}

impl View for RespFrame {
    type V = Frame;

    open spec fn view(&self) -> Frame {
        frame_view(*self)
    }
}

/// `views` keeps the length and maps each frame value to its frame.
pub proof fn lemma_views(frames: Seq<RespFrame>)
    ensures
        views(frames).len() == frames.len(),
        forall|i: int| 0 <= i < frames.len() ==> (#[trigger] views(frames)[i]) == frames[i]@,
    decreases frames.len(),
{
    if frames.len() > 0 {
        lemma_views(frames.drop_last());
    }
}

impl From<SimpleString> for RespFrame {
    fn from(frame: SimpleString) -> (r: Self)
        ensures
            r@ == Frame::SimpleString(frame@),
    {
        RespFrame::SimpleString(frame)
    }
}

impl FromSpecImpl<SimpleString> for RespFrame {
    open spec fn obeys_from_spec() -> bool {
        true
    }

    open spec fn from_spec(frame: SimpleString) -> Self {
        RespFrame::SimpleString(frame)
    }
}

impl From<SimpleError> for RespFrame {
    fn from(frame: SimpleError) -> (r: Self)
        ensures
            r@ == Frame::SimpleError(frame@),
    {
        RespFrame::Error(frame)
    }
}

impl FromSpecImpl<SimpleError> for RespFrame {
    open spec fn obeys_from_spec() -> bool {
        true
    }

    open spec fn from_spec(frame: SimpleError) -> Self {
        RespFrame::Error(frame)
    }
}

impl From<BulkString> for RespFrame {
    fn from(frame: BulkString) -> (r: Self)
        ensures
            r@ == Frame::BulkString(frame@),
    {
        RespFrame::BulkString(frame)
    }
}

impl FromSpecImpl<BulkString> for RespFrame {
    open spec fn obeys_from_spec() -> bool {
        true
    }

    open spec fn from_spec(frame: BulkString) -> Self {
        RespFrame::BulkString(frame)
    }
}

impl From<RespNullBulkString> for RespFrame {
    fn from(frame: RespNullBulkString) -> (r: Self)
        ensures
            r@ == Frame::NullBulkString,
    {
        RespFrame::NullBulkString(frame)
    }
}

impl FromSpecImpl<RespNullBulkString> for RespFrame {
    open spec fn obeys_from_spec() -> bool {
        true
    }

    open spec fn from_spec(frame: RespNullBulkString) -> Self {
        RespFrame::NullBulkString(frame)
    }
}

impl From<RespArray> for RespFrame {
    fn from(frame: RespArray) -> (r: Self)
        ensures
            r@ == Frame::Array(frame@),
    {
        RespFrame::Array(frame)
    }
}

impl FromSpecImpl<RespArray> for RespFrame {
    open spec fn obeys_from_spec() -> bool {
        true
    }

    open spec fn from_spec(frame: RespArray) -> Self {
        RespFrame::Array(frame)
    }
}

impl From<RespNullArray> for RespFrame {
    fn from(frame: RespNullArray) -> (r: Self)
        ensures
            r@ == Frame::NullArray,
    {
        RespFrame::NullArray(frame)
    }
}

impl FromSpecImpl<RespNullArray> for RespFrame {
    open spec fn obeys_from_spec() -> bool {
        true
    }

    open spec fn from_spec(frame: RespNullArray) -> Self {
        RespFrame::NullArray(frame)
    }
}

impl<const N: usize> From<&[u8; N]> for RespFrame {
    fn from(s: &[u8; N]) -> (r: Self)
        ensures
            r@ == Frame::BulkString(s@),
    {
        RespFrame::BulkString(BulkString::from(s))
    }
}

impl<const N: usize> FromSpecImpl<&[u8; N]> for RespFrame {
    open spec fn obeys_from_spec() -> bool {
        false
    }

    open spec fn from_spec(s: &[u8; N]) -> Self {
        arbitrary()
    }
}

impl Clone for RespFrame {
    fn clone(&self) -> (r: Self)
        ensures
            r@ == self@,
        decreases self, 1nat,
    {
        match self {
            RespFrame::SimpleString(frame) => RespFrame::SimpleString(frame.clone()),
            RespFrame::Error(frame) => RespFrame::Error(frame.clone()),
            RespFrame::BulkString(frame) => RespFrame::BulkString(frame.clone()),
            RespFrame::NullBulkString(_) => RespFrame::NullBulkString(RespNullBulkString),
            RespFrame::Array(frame) => RespFrame::Array(frame.clone()),
            RespFrame::NullArray(_) => RespFrame::NullArray(RespNullArray),
        }
    }
}

impl RespFrame {
    /// Takes one frame off the head of the buffer. The leading byte selects
    /// the variant; behind `$` and `*` the declared length is peeked at, and
    /// -1 selects the null form. The buffer is advanced past the frame on
    /// success and left as it was on any error.
    pub fn decode(buf: &mut BytesMut) -> (res: Result<RespFrame, RespError>)
        ensures
            match parse_frame(buffered(*old(buf))) {
                Ok((frame, used)) => res is Ok && res->Ok_0@ == frame && buffered(*final(buf))
                    == buffered(*old(buf)).skip(used as int),
                Err(e) => res is Err && res->Err_0 == e && buffered(*final(buf)) == buffered(
                    *old(buf),
                ),
            },
        decreases buffered(*old(buf)).len(), 1nat,
    {
        let s = contents(buf);
        if s.len() == 0 {
            return Err(RespError::NotComplete);
        }
        let marker: u8 = s[0];
        if marker == SIMPLE_STRING_MARKER {
            match SimpleString::decode(buf) {
                Ok(frame) => Ok(RespFrame::SimpleString(frame)),
                Err(e) => Err(e),
            }
        } else if marker == SIMPLE_ERROR_MARKER {
            match SimpleError::decode(buf) {
                Ok(frame) => Ok(RespFrame::Error(frame)),
                Err(e) => Err(e),
            }
        } else if marker == BULK_STRING_MARKER {
            match parse_length(s, BULK_STRING_MARKER) {
                Ok((_, len)) => if len == -1 {
                    match RespNullBulkString::decode(buf) {
                        Ok(frame) => Ok(RespFrame::NullBulkString(frame)),
                        Err(e) => Err(e),
                    }
                } else {
                    match BulkString::decode(buf) {
                        Ok(frame) => Ok(RespFrame::BulkString(frame)),
                        Err(e) => Err(e),
                    }
                },
                Err(e) => Err(e),
            }
        } else if marker == ARRAY_MARKER {
            match parse_length(s, ARRAY_MARKER) {
                Ok((_, len)) => if len == -1 {
                    match RespNullArray::decode(buf) {
                        Ok(frame) => Ok(RespFrame::NullArray(frame)),
                        Err(e) => Err(e),
                    }
                } else {
                    match RespArray::decode(buf) {
                        Ok(frame) => Ok(RespFrame::Array(frame)),
                        Err(e) => Err(e),
                    }
                },
                Err(e) => Err(e),
            }
        } else {
            Err(RespError::InvalidFrameType)
        }
    }

    /// How many bytes the frame at the head of `buf` takes, found by peeking
    /// at headers only. For a bulk string the answer is known before the
    /// payload has arrived. A length beyond what the machine can address is
    /// reported as incomplete.
    pub fn expect_length(buf: &[u8]) -> (res: Result<usize, RespError>)
        ensures
            match frame_length(buf@) {
                Ok(n) => if n <= usize::MAX {
                    res == Ok::<usize, RespError>(n as usize)
                } else {
                    res == Err::<usize, RespError>(RespError::NotComplete)
                },
                Err(e) => res == Err::<usize, RespError>(e),
            },
        decreases buf@.len(), 2nat,
    {
        if buf.len() == 0 {
            return Err(RespError::NotComplete);
        }
        proof {
            lemma_parse_frame_bound(buf@);
            lemma_scan_line_bounds(buf@, buf@[0]);
        }
        let marker: u8 = buf[0];
        if marker == SIMPLE_STRING_MARKER {
            SimpleString::expect_length(buf)
        } else if marker == SIMPLE_ERROR_MARKER {
            SimpleError::expect_length(buf)
        } else if marker == BULK_STRING_MARKER {
            match parse_length(buf, BULK_STRING_MARKER) {
                Ok((_, len)) => if len == -1 {
                    let literal: [u8; 5] = [36, 45, 49, 13, 10];
                    peek_fixed_data(buf, literal.as_slice())
                } else {
                    BulkString::expect_length(buf)
                },
                Err(e) => Err(e),
            }
        } else if marker == ARRAY_MARKER {
            match parse_length(buf, ARRAY_MARKER) {
                Ok((_, len)) => if len == -1 {
                    let literal: [u8; 5] = [42, 45, 49, 13, 10];
                    peek_fixed_data(buf, literal.as_slice())
                } else {
                    RespArray::expect_length(buf)
                },
                Err(e) => Err(e),
            }
        } else {
            Err(RespError::InvalidFrameType)
        }
    }

    /// Appends the wire form to `out`.
    pub fn encode_to(&self, out: &mut Vec<u8>)
        ensures
            final(out)@ == old(out)@ + wire_form(self@),
        decreases self, 1nat,
    {
        match self {
            RespFrame::SimpleString(frame) => frame.encode_to(out),
            RespFrame::Error(frame) => frame.encode_to(out),
            RespFrame::BulkString(frame) => frame.encode_to(out),
            RespFrame::NullBulkString(frame) => frame.encode_to(out),
            RespFrame::Array(frame) => frame.encode_to(out),
            RespFrame::NullArray(frame) => frame.encode_to(out),
        }
    }

    /// The wire form of the frame, with no framing added.
    pub fn encode(self) -> (out: Vec<u8>)
        ensures
            out@ == wire_form(self@),
    {
        let mut out: Vec<u8> = Vec::new();
        self.encode_to(&mut out);
        assert(out@ =~= wire_form(self@));
        out
    }
}

} // verus!
