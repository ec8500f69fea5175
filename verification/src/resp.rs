//! Frames of the wire protocol and the primitives that every decoder shares.

pub mod array;
pub mod bulk_string;
pub mod frame;
pub mod laws;
pub mod simple_error;
pub mod simple_string;
pub mod wire;

use crate::buffer::{advance, buffered, contents};
use crate::decimal::parse_decimal;
use crate::resp::frame::RespFrame;
use crate::resp::wire::{
    frames_length, has_line_end, is_line_end, lemma_first_line_end, lemma_parse_frame_bound,
    line_end, match_literal, parse_header, scan_line,
};
use bytes::BytesMut;
use vstd::prelude::*;
use vstd::slice::slice_subrange;

verus! {

/// Carriage return.
pub const CR: u8 = 13;

/// Line feed.
pub const LF: u8 = 10;

/// The length of the line terminator.
pub const CRLF_LEN: usize = 2;

/// `+`, which opens a simple string.
pub const SIMPLE_STRING_MARKER: u8 = 43;

/// `-`, which opens a simple error.
pub const SIMPLE_ERROR_MARKER: u8 = 45;

/// `$`, which opens a bulk string and the null bulk string.
pub const BULK_STRING_MARKER: u8 = 36;

/// `*`, which opens an array and the null array.
pub const ARRAY_MARKER: u8 = 42;

/// Why a decoder did not hand out a frame.
#[derive(Debug, PartialEq, Eq, Clone, Copy, Structural)]
pub enum RespError {
    /// More bytes are needed; nothing was consumed.
    NotComplete,
    /// The leading bytes are not the marker or the literal that was asked for.
    InvalidFrameType,
    /// The header holds an integer that is no length of the frame asked for.
    InvalidFrameLength(isize),
    /// The header does not hold a machine-sized base-10 integer.
    ParseIntError,
}

impl RespError {
    /// What `message` says of each error.
    pub open spec fn message_text(self) -> Seq<char> {
        match self {
            RespError::NotComplete => "Frame is not complete"@,
            RespError::InvalidFrameType => "Invalid frame type"@,
            RespError::InvalidFrameLength(_) => "Invalid frame length"@,
            RespError::ParseIntError => "Invalid frame: the length is not an integer"@,
        }
    }

    /// The error in words, for a log or a reply.
    pub fn message(&self) -> (text: String)
        ensures
            text@ == self.message_text(),
    {
        match self {
            RespError::NotComplete => "Frame is not complete".to_owned(),
            RespError::InvalidFrameType => "Invalid frame type".to_owned(),
            RespError::InvalidFrameLength(_) => "Invalid frame length".to_owned(),
            RespError::ParseIntError => "Invalid frame: the length is not an integer".to_owned(),
        }
    }

    /// Whether the error leaves the connection usable: an incomplete frame
    /// only asks for more bytes, anything else is malformed and there is no
    /// point from which decoding could go on.
    pub fn is_recoverable(&self) -> (r: bool)
        ensures
            r == (*self == RespError::NotComplete),
    {
        match self {
            RespError::NotComplete => true,
            _ => false,
        }
    }
}

/// Whether `s` opens with `prefix`.
fn starts_with(s: &[u8], prefix: &[u8]) -> (r: bool)
    requires
        prefix@.len() <= s@.len(),
    ensures
        r == (s@.take(prefix@.len() as int) == prefix@),
{
    let n: usize = prefix.len();
    let mut i: usize = 0;
    while i < n
        invariant
            i <= n,
            n == prefix@.len(),
            n <= s@.len(),
            s@.take(i as int) == prefix@.take(i as int),
        decreases n - i,
    {
        if s[i] != prefix[i] {
            assert(s@.take(n as int)[i as int] != prefix@[i as int]);
            return false;
        }
        i = i + 1;
        assert(s@.take(i as int) =~= s@.take(i - 1).push(s@[i - 1]));
        assert(prefix@.take(i as int) =~= prefix@.take(i - 1).push(prefix@[i - 1]));
    }
    assert(prefix@.take(n as int) =~= prefix@);
    true
}

/// The fixed-literal matcher on a slice: how many bytes `expect` takes at
/// the head of `buf`.
pub fn peek_fixed_data(buf: &[u8], expect: &[u8]) -> (res: Result<usize, RespError>)
    ensures
        match match_literal(buf@, expect@) {
            Ok(used) => res is Ok && res->Ok_0 == used,
            Err(e) => res is Err && res->Err_0 == e,
        },
{
    if buf.len() < expect.len() {
        return Err(RespError::NotComplete);
    }
    if !starts_with(buf, expect) {
        return Err(RespError::InvalidFrameType);
    }
    Ok(expect.len())
}

/// The fixed-literal matcher. Takes `expect` off the head of the buffer if
/// it stands there. A buffer shorter than `expect` is incomplete; one that
/// is long enough and opens otherwise is malformed. The buffer is advanced
/// on success only.
pub fn extract_fixed_data(buf: &mut BytesMut, expect: &[u8]) -> (res: Result<(), RespError>)
    ensures
        match match_literal(buffered(*old(buf)), expect@) {
            Ok(used) => res is Ok && buffered(*final(buf)) == buffered(*old(buf)).skip(
                used as int,
            ),
            Err(e) => res is Err && res->Err_0 == e && buffered(*final(buf)) == buffered(
                *old(buf),
            ),
        },
{
    match peek_fixed_data(contents(buf), expect) {
        Ok(used) => {
            advance(buf, used);
            Ok(())
        },
        Err(e) => Err(e),
    }
}

/// The line scanner. Finds the first `\r\n` behind the one-byte marker and
/// returns the offset of its carriage return. The payload may hold any
/// other control bytes.
pub fn extract_simple_frame_data(buf: &[u8], prefix: u8) -> (res: Result<usize, RespError>)
    ensures
        match scan_line(buf@, prefix) {
            Ok(end) => res is Ok && res->Ok_0 == end,
            Err(e) => res is Err && res->Err_0 == e,
        },
        res matches Ok(end) ==> 1 <= end && end + 2 <= buf@.len() <= usize::MAX,
{
    let n: usize = buf.len();
    if n == 0 {
        return Err(RespError::NotComplete);
    }
    if buf[0] != prefix {
        return Err(RespError::InvalidFrameType);
    }
    let mut i: usize = 1;
    while i < n - 1
        invariant
            1 <= i,
            1 <= n == buf@.len(),
            buf@[0] == prefix,
            forall|j: int| 1 <= j < i ==> !is_line_end(buf@, j),
        decreases n - i,
    {
        if buf[i] == CR && buf[i + 1] == LF {
            proof {
                lemma_first_line_end(buf@, i as int);
            }
            return Ok(i);
        }
        i = i + 1;
    }
    proof {
        if has_line_end(buf@) {
            let j = line_end(buf@);
            assert(is_line_end(buf@, j));
        }
    }
    Err(RespError::NotComplete)
}

/// The length-prefix parser. Returns where the header line ends and the
/// integer that stands between marker and terminator; what a negative
/// integer means is for the caller to say.
pub fn parse_length(buf: &[u8], prefix: u8) -> (res: Result<(usize, isize), RespError>)
    ensures
        match parse_header(buf@, prefix) {
            Ok((end, len)) => res is Ok && res->Ok_0.0 == end && res->Ok_0.1 == len,
            Err(e) => res is Err && res->Err_0 == e,
        },
        res matches Ok((end, len)) ==> 1 <= end && end + 2 <= buf@.len() <= usize::MAX,
{
    match extract_simple_frame_data(buf, prefix) {
        Ok(end) => match parse_decimal(slice_subrange(buf, 1, end)) {
            Some(len) => Ok((end, len)),
            None => Err(RespError::ParseIntError),
        },
        Err(e) => Err(e),
    }
}

/// The total-length calculator for the elements of an array: the length of
/// the header line, whose carriage return stands at `end`, and of `len`
/// frames behind it, each found by peeking at its header where the one
/// before it ends. Nothing is consumed. The total is known only where every
/// element has arrived in full.
pub fn calc_total_length(buf: &[u8], end: usize, len: usize) -> (res: Result<usize, RespError>)
    requires
        end + CRLF_LEN <= buf@.len(),
    ensures
        match frames_length(buf@.skip(end + 2), len as nat) {
            Ok(used) => res is Ok && res->Ok_0 == end + 2 + used,
            Err(e) => res is Err && res->Err_0 == e,
        },
        res matches Ok(total) ==> total <= buf@.len(),
    decreases buf@.len(), 0nat,
{
    let available: usize = buf.len();
    let mut total: usize = end + CRLF_LEN;
    let mut i: usize = 0;
    while i < len
        invariant
            i <= len,
            available == buf@.len(),
            end + 2 <= total <= buf@.len(),
            match frames_length(buf@.skip(total as int), (len - i) as nat) {
                Ok(more) => frames_length(buf@.skip(end + 2), len as nat) == Ok::<
                    nat,
                    RespError,
                >((total - end - 2 + more) as nat),
                Err(e) => frames_length(buf@.skip(end + 2), len as nat) == Err::<nat, RespError>(
                    e,
                ),
            },
        decreases len - i,
    {
        let data = slice_subrange(buf, total, available);
        proof {
            assert(data@ =~= buf@.skip(total as int));
            lemma_parse_frame_bound(data@);
        }
        match RespFrame::expect_length(data) {
            Ok(n) => {
                if n > available - total {
                    return Err(RespError::NotComplete);
                }
                proof {
                    assert(data@.skip(n as int) =~= buf@.skip(total + n));
                }
                total = total + n;
                i = i + 1;
            },
            Err(e) => {
                return Err(e);
            },
        }
    }
    Ok(total)
}

} // verus!
