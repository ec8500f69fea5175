//! What holds between encoding and decoding.

use crate::decimal::{
    all_digits, decimal, digits_value, lemma_decimal_is_digits, lemma_parse_decimal,
    magnitude_digits, parse_int,
};
use crate::resp::wire::{
    crlf, has_line_end, header_form, is_line_end, lemma_first_line_end,
    lemma_parse_frame_bound, lemma_scan_line_bounds, line_end, line_form, null_array_form,
    null_bulk_form, parse_array, parse_bulk, parse_frame, parse_frames, parse_header,
    parse_line, scan_line, wire_form, wire_forms, Frame,
};
use crate::resp::{
    RespError, ARRAY_MARKER, BULK_STRING_MARKER, SIMPLE_ERROR_MARKER,
    SIMPLE_STRING_MARKER,
};
use vstd::prelude::*;
use vstd::utf8::{encode_utf8, encode_utf8_decode_utf8, encode_utf8_valid_utf8};

verus! {

/// Whether a carriage return with a line feed right behind it stands
/// anywhere in `bytes`.
pub open spec fn has_line_break(bytes: Seq<u8>) -> bool {
    exists|i: int| is_line_break(bytes, i)
}

pub open spec fn is_line_break(bytes: Seq<u8>, i: int) -> bool {
    0 <= i && i + 1 < bytes.len() && bytes[i] == 13 && bytes[i + 1] == 10
}

/// The frames that the wire format carries faithfully: the text of a simple
/// string or simple error holds no line break, which would end the line
/// early, and every payload length and element count fits a machine-sized
/// signed integer.
pub open spec fn wire_safe(frame: Frame) -> bool
    decreases frame,
{
    match frame {
        Frame::SimpleString(text) => !has_line_break(encode_utf8(text)),
        Frame::SimpleError(text) => !has_line_break(encode_utf8(text)),
        Frame::BulkString(data) => data.len() <= isize::MAX,
        Frame::NullBulkString => true,
        Frame::Array(items) => items.len() <= isize::MAX && forall|i: int|
            0 <= i < items.len() ==> wire_safe(#[trigger] items[i]),
        Frame::NullArray => true,
    }
}

/// A line whose body holds no line break ends right behind the body,
/// whatever follows its terminator.
proof fn lemma_line_ends_behind_body(marker: u8, body: Seq<u8>, rest: Seq<u8>)
    requires
        !has_line_break(body),
    ensures
        scan_line(seq![marker] + body + crlf() + rest, marker) == Ok::<int, RespError>(
            1 + body.len() as int,
        ),
        (seq![marker] + body + crlf() + rest).subrange(1, 1 + body.len() as int) == body,
{
    let s = seq![marker] + body + crlf() + rest;
    let end: int = 1 + body.len() as int;
    assert(s[end] == 13 && s[end + 1] == 10);
    assert forall|j: int| 1 <= j < end implies !is_line_end(s, j) by {
        if is_line_end(s, j) {
            if j + 1 < end {
                assert(is_line_break(body, j - 1));
            }
        }
    }
    lemma_first_line_end(s, end);
    assert(s.subrange(1, end) =~= body);
}

/// A line cut short of its line feed has no line end.
proof fn lemma_cut_line_has_no_end(marker: u8, body: Seq<u8>, k: int)
    requires
        !has_line_break(body),
        0 <= k < body.len() + 3,
    ensures
        scan_line((seq![marker] + body + crlf()).take(k), marker) == Err::<int, RespError>(
            RespError::NotComplete,
        ),
{
    let s = seq![marker] + body + crlf();
    let p = s.take(k);
    if has_line_end(p) {
        let j = line_end(p);
        assert(is_line_end(p, j));
        if j + 1 < 1 + body.len() {
            assert(is_line_break(body, j - 1));
        }
    }
}

/// Digits hold no line break.
proof fn lemma_digits_have_no_line_break(digits: Seq<u8>)
    requires
        all_digits(digits),
    ensures
        !has_line_break(digits),
{
    if has_line_break(digits) {
        let i = choose|i: int| is_line_break(digits, i);
        assert(is_line_break(digits, i));
    }
}

/// A header with a count that fits reads back as that count, whatever
/// follows it.
proof fn lemma_header_round_trip(marker: u8, count: nat, rest: Seq<u8>)
    requires
        count <= isize::MAX,
    ensures
        parse_header(header_form(marker, count) + rest, marker) == Ok::<(int, int), RespError>(
            (1 + decimal(count).len() as int, count as int),
        ),
{
    lemma_decimal_is_digits(count);
    lemma_digits_have_no_line_break(decimal(count));
    lemma_parse_decimal(count);
    lemma_line_ends_behind_body(marker, decimal(count), rest);
}

/// A header cut short of its line feed is incomplete.
proof fn lemma_cut_header(marker: u8, count: nat, k: int)
    requires
        0 <= k < header_form(marker, count).len(),
    ensures
        parse_header(header_form(marker, count).take(k), marker) == Err::<
            (int, int),
            RespError,
        >(RespError::NotComplete),
{
    lemma_decimal_is_digits(count);
    lemma_digits_have_no_line_break(decimal(count));
    lemma_cut_line_has_no_end(marker, decimal(count), k);
}

/// The header of a null form declares the length -1.
proof fn lemma_null_header(marker: u8, rest: Seq<u8>)
    ensures
        parse_header(seq![marker, 45u8, 49u8, 13u8, 10u8] + rest, marker) == Ok::<
            (int, int),
            RespError,
        >((3, -1)),
{
    let body = seq![45u8, 49u8];
    let s = seq![marker, 45u8, 49u8, 13u8, 10u8] + rest;
    assert(s =~= seq![marker] + body + crlf() + rest);
    if has_line_break(body) {
        let i = choose|i: int| is_line_break(body, i);
        assert(is_line_break(body, i));
    }
    lemma_line_ends_behind_body(marker, body, rest);
    let digits = magnitude_digits(body);
    assert(digits =~= seq![49u8]);
    assert(digits.drop_last() =~= Seq::<u8>::empty());
    assert(digits_value(digits.drop_last()) == 0);
    assert(digits_value(digits) == 1);
    assert(parse_int(body) == Some(-1int));
}

/// Round trip. Decoding the bytes that encoding wrote gives the frame back
/// and takes exactly those bytes, whatever follows them in the buffer.
pub proof fn lemma_round_trip(frame: Frame, rest: Seq<u8>)
    requires
        wire_safe(frame),
    ensures
        parse_frame(wire_form(frame) + rest) == Ok::<(Frame, nat), RespError>(
            (frame, wire_form(frame).len()),
        ),
    decreases frame, 0nat,
{
    let s = wire_form(frame) + rest;
    match frame {
        Frame::SimpleString(text) => {
            lemma_line_round_trip(SIMPLE_STRING_MARKER, text, rest);
        },
        Frame::SimpleError(text) => {
            lemma_line_round_trip(SIMPLE_ERROR_MARKER, text, rest);
        },
        Frame::BulkString(data) => {
            let tail = data + crlf() + rest;
            assert(s =~= header_form(BULK_STRING_MARKER, data.len()) + tail);
            lemma_header_round_trip(BULK_STRING_MARKER, data.len(), tail);
            let end: int = 1 + decimal(data.len()).len() as int;
            assert(s.subrange(end + 2, end + 2 + data.len()) =~= data);
        },
        Frame::NullBulkString => {
            lemma_null_header(BULK_STRING_MARKER, rest);
            assert(s.take(5) =~= null_bulk_form());
        },
        Frame::Array(items) => {
            let tail = wire_forms(items) + rest;
            assert(s =~= header_form(ARRAY_MARKER, items.len()) + tail);
            lemma_header_round_trip(ARRAY_MARKER, items.len(), tail);
            let end: int = 1 + decimal(items.len()).len() as int;
            assert(s.skip(end + 2) =~= tail);
            lemma_round_trip_all(items, rest);
        },
        Frame::NullArray => {
            lemma_null_header(ARRAY_MARKER, rest);
            assert(s.take(5) =~= null_array_form());
        },
    }
}

/// The round trip of a simple string or simple error.
proof fn lemma_line_round_trip(marker: u8, text: Seq<char>, rest: Seq<u8>)
    requires
        !has_line_break(encode_utf8(text)),
    ensures
        parse_line(line_form(marker, text) + rest, marker) == Ok::<(Seq<char>, nat), RespError>(
            (text, line_form(marker, text).len()),
        ),
{
    lemma_line_ends_behind_body(marker, encode_utf8(text), rest);
    encode_utf8_valid_utf8(text);
    encode_utf8_decode_utf8(text);
}

/// The round trip of frames written one after the other.
pub proof fn lemma_round_trip_all(frames: Seq<Frame>, rest: Seq<u8>)
    requires
        forall|i: int| 0 <= i < frames.len() ==> wire_safe(#[trigger] frames[i]),
    ensures
        parse_frames(wire_forms(frames) + rest, frames.len()) == Ok::<
            (Seq<Frame>, nat),
            RespError,
        >((frames, wire_forms(frames).len())),
    decreases frames, 1nat,
{
    if frames.len() == 0 {
        assert(frames =~= Seq::<Frame>::empty());
    } else {
        let first = frames[0];
        let others = frames.skip(1);
        let s = wire_forms(frames) + rest;
        let tail = wire_forms(others) + rest;
        assert(s =~= wire_form(first) + tail);
        lemma_round_trip(first, tail);
        assert(s.skip(wire_form(first).len() as int) =~= tail);
        assert forall|i: int| 0 <= i < others.len() implies wire_safe(#[trigger] others[i]) by {
            assert(others[i] == frames[i + 1]);
        }
        lemma_round_trip_all(others, rest);
        assert(seq![first] + others =~= frames);
    }
}

/// A frame cut short is incomplete: no proper prefix of a wire form
/// decodes, and none is malformed.
pub proof fn lemma_prefix_incomplete(frame: Frame, k: int)
    requires
        wire_safe(frame),
        0 <= k < wire_form(frame).len(),
    ensures
        parse_frame(wire_form(frame).take(k)) == Err::<(Frame, nat), RespError>(
            RespError::NotComplete,
        ),
    decreases frame, 0nat,
{
    let s = wire_form(frame);
    let p = s.take(k);
    if k > 0 {
        assert(p[0] == s[0]);
        match frame {
            Frame::SimpleString(text) => {
                lemma_cut_line_has_no_end(SIMPLE_STRING_MARKER, encode_utf8(text), k);
            },
            Frame::SimpleError(text) => {
                lemma_cut_line_has_no_end(SIMPLE_ERROR_MARKER, encode_utf8(text), k);
            },
            Frame::BulkString(data) => {
                let header = header_form(BULK_STRING_MARKER, data.len());
                if k < header.len() {
                    assert(p =~= header.take(k));
                    lemma_cut_header(BULK_STRING_MARKER, data.len(), k);
                } else {
                    let tail = (data + crlf()).take(k - header.len());
                    assert(p =~= header + tail);
                    lemma_header_round_trip(BULK_STRING_MARKER, data.len(), tail);
                }
            },
            Frame::NullBulkString => {
                lemma_cut_null(BULK_STRING_MARKER, k);
                assert(s =~= seq![BULK_STRING_MARKER, 45u8, 49u8, 13u8, 10u8]);
            },
            Frame::Array(items) => {
                let header = header_form(ARRAY_MARKER, items.len());
                if k < header.len() {
                    assert(p =~= header.take(k));
                    lemma_cut_header(ARRAY_MARKER, items.len(), k);
                } else {
                    let tail = wire_forms(items).take(k - header.len());
                    assert(p =~= header + tail);
                    lemma_header_round_trip(ARRAY_MARKER, items.len(), tail);
                    let end: int = 1 + decimal(items.len()).len() as int;
                    assert(p.skip(end + 2) =~= tail);
                    lemma_prefix_incomplete_all(items, k - header.len());
                }
            },
            Frame::NullArray => {
                lemma_cut_null(ARRAY_MARKER, k);
                assert(s =~= seq![ARRAY_MARKER, 45u8, 49u8, 13u8, 10u8]);
            },
        }
    }
}

/// A null form cut short has an incomplete header.
proof fn lemma_cut_null(marker: u8, k: int)
    requires
        0 <= k < 5,
    ensures
        parse_header(seq![marker, 45u8, 49u8, 13u8, 10u8].take(k), marker) == Err::<
            (int, int),
            RespError,
        >(RespError::NotComplete),
{
    let body = seq![45u8, 49u8];
    assert(seq![marker, 45u8, 49u8, 13u8, 10u8] =~= seq![marker] + body + crlf());
    if has_line_break(body) {
        let i = choose|i: int| is_line_break(body, i);
        assert(is_line_break(body, i));
    }
    lemma_cut_line_has_no_end(marker, body, k);
}

/// Frames written one after the other and cut short are incomplete.
pub proof fn lemma_prefix_incomplete_all(frames: Seq<Frame>, k: int)
    requires
        forall|i: int| 0 <= i < frames.len() ==> wire_safe(#[trigger] frames[i]),
        0 <= k < wire_forms(frames).len(),
    ensures
        parse_frames(wire_forms(frames).take(k), frames.len()) == Err::<
            (Seq<Frame>, nat),
            RespError,
        >(RespError::NotComplete),
    decreases frames, 1nat,
{
    let first = frames[0];
    let others = frames.skip(1);
    let whole = wire_forms(frames);
    let p = whole.take(k);
    let head = wire_form(first);
    if k < head.len() {
        assert(p =~= head.take(k));
        lemma_prefix_incomplete(first, k);
    } else {
        let tail = wire_forms(others).take(k - head.len());
        assert(p =~= head + tail);
        lemma_round_trip(first, tail);
        assert(p.skip(head.len() as int) =~= tail);
        assert forall|i: int| 0 <= i < others.len() implies wire_safe(#[trigger] others[i]) by {
            assert(others[i] == frames[i + 1]);
        }
        lemma_prefix_incomplete_all(others, k - head.len());
    }
}

/// Incremental equivalence. Split the wire form of a frame at any offset
/// short of its end: the first chunk alone is incomplete, and the two chunks
/// together decode to the frame, as the undivided bytes do.
pub proof fn lemma_incremental_equivalence(frame: Frame, k: int)
    requires
        wire_safe(frame),
        0 <= k < wire_form(frame).len(),
    ensures
        parse_frame(wire_form(frame).take(k)) == Err::<(Frame, nat), RespError>(
            RespError::NotComplete,
        ),
        parse_frame(wire_form(frame).take(k) + wire_form(frame).skip(k)) == parse_frame(
            wire_form(frame),
        ),
        parse_frame(wire_form(frame)) == Ok::<(Frame, nat), RespError>(
            (frame, wire_form(frame).len()),
        ),
{
    let whole = wire_form(frame);
    lemma_prefix_incomplete(frame, k);
    assert(whole.take(k) + whole.skip(k) =~= whole);
    lemma_round_trip(frame, Seq::empty());
    assert(whole + Seq::<u8>::empty() =~= whole);
}

/// A line that has its end keeps it, and its body, whatever follows.
proof fn lemma_line_is_stable(s: Seq<u8>, marker: u8, more: Seq<u8>)
    requires
        scan_line(s, marker) is Ok,
    ensures
        scan_line(s + more, marker) == scan_line(s, marker),
        (s + more).subrange(1, line_end(s)) == s.subrange(1, line_end(s)),
{
    lemma_scan_line_bounds(s, marker);
    let end = line_end(s);
    let longer = s + more;
    assert forall|j: int| 1 <= j < end implies !is_line_end(longer, j) by {
        assert(!is_line_end(s, j));
    }
    assert(is_line_end(longer, end));
    lemma_first_line_end(longer, end);
    assert(longer.subrange(1, end) =~= s.subrange(1, end));
}

/// Stability. Only an incomplete frame waits on what arrives later: once
/// the head of the buffer decodes to a frame or is found malformed, more
/// bytes behind it change neither the frame, nor the bytes it takes, nor the
/// error.
pub proof fn lemma_outcome_is_final(s: Seq<u8>, more: Seq<u8>)
    requires
        parse_frame(s) != Err::<(Frame, nat), RespError>(RespError::NotComplete),
    ensures
        parse_frame(s + more) == parse_frame(s),
    decreases s.len(), 1nat,
{
    let longer = s + more;
    assert(longer[0] == s[0]);
    if scan_line(s, s[0]) is Ok {
        lemma_line_is_stable(s, s[0], more);
        lemma_scan_line_bounds(s, s[0]);
        if s[0] == BULK_STRING_MARKER {
            if let Ok((end, len)) = parse_header(s, BULK_STRING_MARKER) {
                if len == -1 {
                    assert(longer.take(5) =~= s.take(5));
                } else if len >= 0 {
                    assert(longer.subrange(end + 2, end + 2 + len) =~= s.subrange(
                        end + 2,
                        end + 2 + len,
                    ));
                }
            }
        } else if s[0] == ARRAY_MARKER {
            if let Ok((end, len)) = parse_header(s, ARRAY_MARKER) {
                if len == -1 {
                    assert(longer.take(5) =~= s.take(5));
                } else if len >= 0 {
                    assert(longer.skip(end + 2) =~= s.skip(end + 2) + more);
                    lemma_outcomes_are_final(s.skip(end + 2), len as nat, more);
                }
            }
        }
    }
}

/// The same of frames that stand one after the other.
pub proof fn lemma_outcomes_are_final(s: Seq<u8>, count: nat, more: Seq<u8>)
    requires
        parse_frames(s, count) != Err::<(Seq<Frame>, nat), RespError>(RespError::NotComplete),
    ensures
        parse_frames(s + more, count) == parse_frames(s, count),
    decreases s.len(), 2nat, count,
{
    if count > 0 {
        lemma_parse_frame_bound(s);
        lemma_outcome_is_final(s, more);
        if let Ok((first, used)) = parse_frame(s) {
            assert((s + more).skip(used as int) =~= s.skip(used as int) + more);
            lemma_outcomes_are_final(s.skip(used as int), (count - 1) as nat, more);
        }
    }
}

/// Sentinel precedence for bulk strings. The literal `$-1\r\n` at the head
/// of a buffer decodes to the null bulk string and takes five bytes; read as
/// a bulk string with a length, it is refused.
pub proof fn lemma_null_bulk_precedence(rest: Seq<u8>)
    ensures
        parse_frame(null_bulk_form() + rest) == Ok::<(Frame, nat), RespError>(
            (Frame::NullBulkString, 5),
        ),
        parse_bulk(null_bulk_form() + rest) == Err::<(Seq<u8>, nat), RespError>(
            RespError::InvalidFrameLength(-1isize),
        ),
{
    lemma_round_trip(Frame::NullBulkString, rest);
    lemma_null_header(BULK_STRING_MARKER, rest);
    assert(null_bulk_form() =~= seq![BULK_STRING_MARKER, 45u8, 49u8, 13u8, 10u8]);
}

/// Sentinel precedence for arrays. The literal `*-1\r\n` at the head of a
/// buffer decodes to the null array and takes five bytes; read as an array
/// with a count, it is refused.
pub proof fn lemma_null_array_precedence(rest: Seq<u8>)
    ensures
        parse_frame(null_array_form() + rest) == Ok::<(Frame, nat), RespError>(
            (Frame::NullArray, 5),
        ),
        parse_array(null_array_form() + rest) == Err::<(Seq<Frame>, nat), RespError>(
            RespError::InvalidFrameLength(-1isize),
        ),
{
    lemma_round_trip(Frame::NullArray, rest);
    lemma_null_header(ARRAY_MARKER, rest);
    assert(null_array_form() =~= seq![ARRAY_MARKER, 45u8, 49u8, 13u8, 10u8]);
}

} // verus!
