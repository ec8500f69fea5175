//! The wire format as mathematics: what bytes a frame is written as, and
//! what a run of buffered bytes decodes to.
//!
//! | Frame            | Wire form                              |
//! |------------------|----------------------------------------|
//! | simple string    | `+<text>\r\n`                          |
//! | simple error     | `-<text>\r\n`                          |
//! | bulk string      | `$<byte-length>\r\n<raw-bytes>\r\n`    |
//! | null bulk string | `$-1\r\n`                              |
//! | array            | `*<count>\r\n<element>...<element>`    |
//! | null array       | `*-1\r\n`                              |

use crate::decimal::{decimal, parse_int};
use crate::resp::{
    RespError, ARRAY_MARKER, BULK_STRING_MARKER, SIMPLE_ERROR_MARKER, SIMPLE_STRING_MARKER,
};
use crate::text::text_of;
use vstd::prelude::*;
use vstd::utf8::encode_utf8;

verus! {

/// One self-delimited unit of the protocol, as a mathematical value.
pub enum Frame {
    SimpleString(Seq<char>),
    SimpleError(Seq<char>),
    BulkString(Seq<u8>),
    NullBulkString,
    Array(Seq<Frame>),
    NullArray,
}

/// The line terminator, `\r\n`.
pub open spec fn crlf() -> Seq<u8> {
    seq![13u8, 10u8]
}

/// `$-1\r\n`
pub open spec fn null_bulk_form() -> Seq<u8> {
    seq![36u8, 45u8, 49u8, 13u8, 10u8]
}

/// `*-1\r\n`
pub open spec fn null_array_form() -> Seq<u8> {
    seq![42u8, 45u8, 49u8, 13u8, 10u8]
}

/// A marker, the text in UTF-8, and the terminator.
pub open spec fn line_form(marker: u8, text: Seq<char>) -> Seq<u8> {
    seq![marker] + encode_utf8(text) + crlf()
}

/// A marker, a count in decimal, and the terminator.
pub open spec fn header_form(marker: u8, count: nat) -> Seq<u8> {
    seq![marker] + decimal(count) + crlf()
}

/// The header with the payload's length, the payload, and the terminator.
pub open spec fn bulk_form(data: Seq<u8>) -> Seq<u8> {
    header_form(BULK_STRING_MARKER, data.len()) + data + crlf()
}

/// The canonical bytes of a frame.
pub open spec fn wire_form(frame: Frame) -> Seq<u8>
    decreases frame, 0nat,
{
    match frame {
        Frame::SimpleString(text) => line_form(SIMPLE_STRING_MARKER, text),
        Frame::SimpleError(text) => line_form(SIMPLE_ERROR_MARKER, text),
        Frame::BulkString(data) => bulk_form(data),
        Frame::NullBulkString => null_bulk_form(),
        Frame::Array(items) => header_form(ARRAY_MARKER, items.len()) + wire_forms(items),
        Frame::NullArray => null_array_form(),
    }
}

/// The canonical bytes of frames one after the other, with nothing between.
pub open spec fn wire_forms(frames: Seq<Frame>) -> Seq<u8>
    decreases frames, 1nat,
{
    if frames.len() == 0 {
        Seq::empty()
    } else {
        wire_form(frames[0]) + wire_forms(frames.skip(1))
    }
}

/// Whether a carriage return stands at `i`, past the marker, with a line
/// feed right behind it.
pub open spec fn is_line_end(s: Seq<u8>, i: int) -> bool {
    1 <= i && i + 1 < s.len() && s[i] == 13 && s[i + 1] == 10
}

/// Whether `i` is the first line end of `s`.
pub open spec fn is_first_line_end(s: Seq<u8>, i: int) -> bool {
    is_line_end(s, i) && forall|j: int| 1 <= j < i ==> !is_line_end(s, j)
}

pub open spec fn has_line_end(s: Seq<u8>) -> bool {
    exists|i: int| is_first_line_end(s, i)
}

/// The offset of the carriage return that ends the first line of `s`.
pub open spec fn line_end(s: Seq<u8>) -> int {
    choose|i: int| is_first_line_end(s, i)
}

/// The line scanner: where the first line of a frame with the given marker
/// ends. An empty buffer and a line without its end are incomplete; another
/// leading byte is malformed.
pub open spec fn scan_line(s: Seq<u8>, marker: u8) -> Result<int, RespError> {
    if s.len() == 0 {
        Err(RespError::NotComplete)
    } else if s[0] != marker {
        Err(RespError::InvalidFrameType)
    } else if !has_line_end(s) {
        Err(RespError::NotComplete)
    } else {
        Ok(line_end(s))
    }
}

/// The length-prefix parser: where the header line ends and the integer
/// between marker and terminator. The sign of the integer is left to the
/// caller.
pub open spec fn parse_header(s: Seq<u8>, marker: u8) -> Result<(int, int), RespError> {
    match scan_line(s, marker) {
        Ok(end) => match parse_int(s.subrange(1, end)) {
            Some(len) => Ok((end, len)),
            None => Err(RespError::ParseIntError),
        },
        Err(e) => Err(e),
    }
}

/// The fixed-literal matcher: how many bytes the literal takes at the head
/// of `s`. A buffer shorter than the literal is incomplete, whatever it
/// holds; a buffer that is long enough and differs is malformed.
pub open spec fn match_literal(s: Seq<u8>, literal: Seq<u8>) -> Result<nat, RespError> {
    if s.len() < literal.len() {
        Err(RespError::NotComplete)
    } else if s.take(literal.len() as int) != literal {
        Err(RespError::InvalidFrameType)
    } else {
        Ok(literal.len())
    }
}

/// A simple string or simple error at the head of `s`: its text and the
/// bytes it takes. Bytes that are not UTF-8 are converted lossily.
pub open spec fn parse_line(s: Seq<u8>, marker: u8) -> Result<(Seq<char>, nat), RespError> {
    match scan_line(s, marker) {
        Ok(end) => Ok((text_of(s.subrange(1, end)), (end + 2) as nat)),
        Err(e) => Err(e),
    }
}

/// How long the simple string or simple error at the head of `s` is.
pub open spec fn line_length(s: Seq<u8>, marker: u8) -> Result<nat, RespError> {
    match scan_line(s, marker) {
        Ok(end) => Ok((end + 2) as nat),
        Err(e) => Err(e),
    }
}

/// A bulk string at the head of `s`: its payload and the bytes it takes.
/// The two bytes behind the payload are dropped unread.
pub open spec fn parse_bulk(s: Seq<u8>) -> Result<(Seq<u8>, nat), RespError> {
    match parse_header(s, BULK_STRING_MARKER) {
        Ok((end, len)) => if len < 0 {
            Err(RespError::InvalidFrameLength(len as isize))
        } else if s.len() < end + 2 + len + 2 {
            Err(RespError::NotComplete)
        } else {
            Ok((s.subrange(end + 2, end + 2 + len), (end + 2 + len + 2) as nat))
        },
        Err(e) => Err(e),
    }
}

/// How long the bulk string at the head of `s` is once all of it has
/// arrived: known from the header alone.
pub open spec fn bulk_length(s: Seq<u8>) -> Result<nat, RespError> {
    match parse_header(s, BULK_STRING_MARKER) {
        Ok((end, len)) => if len < 0 {
            Err(RespError::InvalidFrameLength(len as isize))
        } else {
            Ok((end + 2 + len + 2) as nat)
        },
        Err(e) => Err(e),
    }
}

/// An array at the head of `s`: its elements and the bytes it takes.
pub open spec fn parse_array(s: Seq<u8>) -> Result<(Seq<Frame>, nat), RespError>
    decreases s.len(), 0nat, 0nat,
{
    match parse_header(s, ARRAY_MARKER) {
        Ok((end, len)) => if len < 0 {
            Err(RespError::InvalidFrameLength(len as isize))
        } else {
            match parse_frames(s.skip(end + 2), len as nat) {
                Ok((items, used)) => Ok((items, (end + 2 + used) as nat)),
                Err(e) => Err(e),
            }
        },
        Err(e) => Err(e),
    }
}

/// The frame at the head of `s` and the bytes it takes. The leading byte
/// selects the variant; behind `$` and `*` a declared length of -1 selects
/// the null form, which must be the exact literal.
pub open spec fn parse_frame(s: Seq<u8>) -> Result<(Frame, nat), RespError>
    decreases s.len(), 1nat, 0nat,
{
    if s.len() == 0 {
        Err(RespError::NotComplete)
    } else if s[0] == SIMPLE_STRING_MARKER {
        match parse_line(s, SIMPLE_STRING_MARKER) {
            Ok((text, used)) => Ok((Frame::SimpleString(text), used)),
            Err(e) => Err(e),
        }
    } else if s[0] == SIMPLE_ERROR_MARKER {
        match parse_line(s, SIMPLE_ERROR_MARKER) {
            Ok((text, used)) => Ok((Frame::SimpleError(text), used)),
            Err(e) => Err(e),
        }
    } else if s[0] == BULK_STRING_MARKER {
        match parse_header(s, BULK_STRING_MARKER) {
            Ok((end, len)) => if len == -1 {
                match match_literal(s, null_bulk_form()) {
                    Ok(used) => Ok((Frame::NullBulkString, used)),
                    Err(e) => Err(e),
                }
            } else {
                match parse_bulk(s) {
                    Ok((data, used)) => Ok((Frame::BulkString(data), used)),
                    Err(e) => Err(e),
                }
            },
            Err(e) => Err(e),
        }
    } else if s[0] == ARRAY_MARKER {
        match parse_header(s, ARRAY_MARKER) {
            Ok((end, len)) => if len == -1 {
                match match_literal(s, null_array_form()) {
                    Ok(used) => Ok((Frame::NullArray, used)),
                    Err(e) => Err(e),
                }
            } else {
                match parse_array(s) {
                    Ok((items, used)) => Ok((Frame::Array(items), used)),
                    Err(e) => Err(e),
                }
            },
            Err(e) => Err(e),
        }
    } else {
        Err(RespError::InvalidFrameType)
    }
}

/// `count` frames one after the other at the head of `s`, and the bytes
/// they take together. The first frame that is incomplete or malformed
/// decides the outcome. No frame takes more bytes than are buffered
/// (`lemma_parse_frame_bound`); the test for it is what shows that the
/// definition terminates.
pub open spec fn parse_frames(s: Seq<u8>, count: nat) -> Result<(Seq<Frame>, nat), RespError>
    decreases s.len(), 2nat, count,
{
    if count == 0 {
        Ok((Seq::empty(), 0))
    } else {
        match parse_frame(s) {
            Ok((first, used)) => if used > s.len() {
                Err(RespError::NotComplete)
            } else {
                match parse_frames(s.skip(used as int), (count - 1) as nat) {
                    Ok((others, more)) => Ok((seq![first] + others, used + more)),
                    Err(e) => Err(e),
                }
            },
            Err(e) => Err(e),
        }
    }
}

/// How long the frame at the head of `s` is: what decoding it takes from the
/// buffer, and for a bulk string whose payload has not all arrived, what it
/// is going to take.
pub open spec fn frame_length(s: Seq<u8>) -> Result<nat, RespError> {
    match parse_frame(s) {
        Ok((frame, used)) => Ok(used),
        Err(e) => if e == RespError::NotComplete && s.len() > 0 && s[0] == BULK_STRING_MARKER && bulk_length(
            s,
        ) is Ok {
            bulk_length(s)
        } else {
            Err(e)
        },
    }
}

/// How long the array at the head of `s` is, all of it buffered.
pub open spec fn array_length(s: Seq<u8>) -> Result<nat, RespError> {
    match parse_array(s) {
        Ok((items, used)) => Ok(used),
        Err(e) => Err(e),
    }
}

/// How long `count` frames at the head of `s` are together, all of them
/// buffered.
pub open spec fn frames_length(s: Seq<u8>, count: nat) -> Result<nat, RespError> {
    match parse_frames(s, count) {
        Ok((items, used)) => Ok(used),
        Err(e) => Err(e),
    }
}

/// A line has one first end, and `line_end` names it.
pub proof fn lemma_first_line_end(s: Seq<u8>, i: int)
    requires
        is_first_line_end(s, i),
    ensures
        has_line_end(s),
        line_end(s) == i,
{
    let j = line_end(s);
    assert(is_first_line_end(s, j));
    if j < i {
        assert(!is_line_end(s, j));
    }
    if i < j {
        assert(!is_line_end(s, i));
    }
}

/// Where a line is found, it ends past the marker and inside the buffer, and
/// no line end stands before it.
pub proof fn lemma_scan_line_bounds(s: Seq<u8>, marker: u8)
    ensures
        scan_line(s, marker) matches Ok(end) ==> 1 <= end && end + 2 <= s.len()
            && is_first_line_end(s, end),
{
    if has_line_end(s) {
        assert(is_first_line_end(s, line_end(s)));
    }
}

/// A decoded frame takes at least one byte and no more than are buffered.
pub proof fn lemma_parse_frame_bound(s: Seq<u8>)
    ensures
        parse_frame(s) matches Ok((frame, used)) ==> 0 < used <= s.len(),
    decreases s.len(), 1nat,
{
    if s.len() > 0 {
        lemma_scan_line_bounds(s, s[0]);
        if s[0] == ARRAY_MARKER {
            if let Ok((end, len)) = parse_header(s, ARRAY_MARKER) {
                if len >= 0 {
                    lemma_parse_frames_bound(s.skip(end + 2), len as nat);
                }
            }
        }
    }
}

/// Decoded frames are as many as were asked for and take no more bytes than
/// are buffered.
pub proof fn lemma_parse_frames_bound(s: Seq<u8>, count: nat)
    ensures
        parse_frames(s, count) matches Ok((items, used)) ==> items.len() == count && used
            <= s.len(),
    decreases s.len(), 2nat, count,
{
    if count > 0 {
        lemma_parse_frame_bound(s);
        if let Ok((first, used)) = parse_frame(s) {
            lemma_parse_frames_bound(s.skip(used as int), (count - 1) as nat);
        }
    }
}

/// Writing one more frame appends its wire form.
pub proof fn lemma_wire_forms_push(frames: Seq<Frame>, last: Frame)
    ensures
        wire_forms(frames.push(last)) == wire_forms(frames) + wire_form(last),
    decreases frames.len(),
{
    let all = frames.push(last);
    if frames.len() == 0 {
        assert(all.skip(1) =~= Seq::<Frame>::empty());
        assert(wire_forms(all) =~= wire_form(last) + wire_forms(all.skip(1)));
        assert(wire_forms(all) =~= wire_forms(frames) + wire_form(last));
    } else {
        assert(all.skip(1) =~= frames.skip(1).push(last));
        lemma_wire_forms_push(frames.skip(1), last);
        assert(wire_forms(all) =~= wire_forms(frames) + wire_form(last));
    }
}

} // verus!
