//! Simple errors: `-<text>\r\n`.

use crate::buffer::{buffered, contents};
use crate::resp::wire::{line_form, line_length, parse_line};
use crate::resp::{
    extract_simple_frame_data, RespError, CR, CRLF_LEN, LF, SIMPLE_ERROR_MARKER,
};
use crate::text::text_from_bytes;
use bytes::BytesMut;
use vstd::prelude::*;
use vstd::slice::slice_subrange;
use vstd::std_specs::convert::FromSpecImpl;

verus! {

/// A simple error: one line of text that reports a failure.
#[derive(Debug, PartialEq, Eq, PartialOrd)]
pub struct SimpleError(pub String);

impl View for SimpleError {
    type V = Seq<char>;

    open spec fn view(&self) -> Seq<char> {
        self.0@
    }
}

impl SimpleError {
    /// The frame with the given text.
    pub fn new(s: String) -> (r: Self)
        ensures
            r@ == s@,
    {
        SimpleError(s)
    }
}

impl SimpleError {
    /// Takes one simple error off the head of the buffer: the text between
    /// the marker and the first line end, converted lossily where it is not
    /// UTF-8. On any error the buffer is left as it was.
    pub fn decode(buf: &mut BytesMut) -> (res: Result<SimpleError, RespError>)
        ensures
            match parse_line(buffered(*old(buf)), SIMPLE_ERROR_MARKER) {
                Ok((text, used)) => res is Ok && res->Ok_0@ == text && buffered(*final(buf))
                    == buffered(*old(buf)).skip(used as int),
                Err(e) => res is Err && res->Err_0 == e && buffered(*final(buf)) == buffered(
                    *old(buf),
                ),
            },
    {
        match extract_simple_frame_data(contents(buf), SIMPLE_ERROR_MARKER) {
            Ok(end) => {
                let data = buf.split_to(end + CRLF_LEN);
                let line = contents(&data);
                let text = text_from_bytes(slice_subrange(line, 1, end));
                assert(line@.subrange(1, end as int) =~= buffered(*old(buf)).subrange(
                    1,
                    end as int,
                ));
                Ok(SimpleError::new(text))
            },
            Err(e) => Err(e),
        }
    }

    /// How many bytes the simple error at the head of `buf` takes.
    pub fn expect_length(buf: &[u8]) -> (res: Result<usize, RespError>)
        ensures
            match line_length(buf@, SIMPLE_ERROR_MARKER) {
                Ok(n) => res is Ok && res->Ok_0 == n,
                Err(e) => res is Err && res->Err_0 == e,
            },
    {
        match extract_simple_frame_data(buf, SIMPLE_ERROR_MARKER) {
            Ok(end) => Ok(end + CRLF_LEN),
            Err(e) => Err(e),
        }
    }

    /// Appends the wire form to `out`.
    pub fn encode_to(&self, out: &mut Vec<u8>)
        ensures
            final(out)@ == old(out)@ + line_form(SIMPLE_ERROR_MARKER, self@),
    {
        out.push(SIMPLE_ERROR_MARKER);
        out.extend_from_slice(self.0.as_str().as_bytes());
        out.push(CR);
        out.push(LF);
        assert(out@ =~= old(out)@ + line_form(SIMPLE_ERROR_MARKER, self@));
    }

    /// The wire form: the marker, the text, the line end.
    pub fn encode(self) -> (out: Vec<u8>)
        ensures
            out@ == line_form(SIMPLE_ERROR_MARKER, self@),
    {
        let mut out: Vec<u8> = Vec::new();
        self.encode_to(&mut out);
        assert(out@ =~= line_form(SIMPLE_ERROR_MARKER, self@));
        out
    }
}

impl core::ops::Deref for SimpleError {
    type Target = String;

    fn deref(&self) -> (r: &String)
        ensures
            r@ == self@,
    {
        &self.0
    }
}

impl From<&str> for SimpleError {
    fn from(s: &str) -> (r: Self)
        ensures
            r@ == s@,
    {
        SimpleError(s.to_owned())
    }
}

impl FromSpecImpl<&str> for SimpleError {
    open spec fn obeys_from_spec() -> bool {
        false
    }

    open spec fn from_spec(s: &str) -> Self {
        arbitrary()
    }
}

impl Clone for SimpleError {
    fn clone(&self) -> (r: Self)
        ensures
            r@ == self@,
    {
        SimpleError(self.0.clone())
    }
}

} // verus!
