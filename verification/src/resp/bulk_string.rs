//! Bulk strings, `$<byte-length>\r\n<raw-bytes>\r\n`, and the null bulk
//! string `$-1\r\n`.

use crate::buffer::{advance, buffered, contents};
use crate::decimal::push_decimal;
use crate::resp::wire::{bulk_form, bulk_length, match_literal, null_bulk_form, parse_bulk};
use crate::resp::{
    extract_fixed_data, parse_length, RespError, BULK_STRING_MARKER, CR, CRLF_LEN, LF,
};
use bytes::BytesMut;
use vstd::prelude::*;
use vstd::slice::{slice_subrange, slice_to_vec};
use vstd::std_specs::convert::FromSpecImpl;
use vstd::utf8::encode_utf8;

verus! {

/// A bulk string: raw bytes, which need not be text.
#[derive(Debug, PartialEq, Eq, PartialOrd)]
pub struct BulkString(pub Vec<u8>);

/// The null bulk string.
#[derive(Debug, PartialEq, Eq, PartialOrd, Clone, Copy)]
pub struct RespNullBulkString;

impl View for BulkString {
    type V = Seq<u8>;

    open spec fn view(&self) -> Seq<u8> {
        self.0@
    }
}

impl BulkString {
    /// The bulk string with the given payload.
    pub fn new(s: Vec<u8>) -> (r: Self)
        ensures
            r@ == s@,
    {
        BulkString(s)
    }
}

impl RespNullBulkString {
    /// Takes the literal `$-1\r\n` off the head of the buffer.
    pub fn decode(buf: &mut BytesMut) -> (res: Result<RespNullBulkString, RespError>)
        ensures
            match match_literal(buffered(*old(buf)), null_bulk_form()) {
                Ok(used) => res is Ok && buffered(*final(buf)) == buffered(*old(buf)).skip(
                    used as int,
                ),
                Err(e) => res is Err && res->Err_0 == e && buffered(*final(buf)) == buffered(
                    *old(buf),
                ),
            },
    {
        let literal: [u8; 5] = [36, 45, 49, 13, 10];
        assert(literal@ =~= null_bulk_form());
        match extract_fixed_data(buf, literal.as_slice()) {
            Ok(()) => Ok(RespNullBulkString),
            Err(e) => Err(e),
        }
    }

    /// The length of the literal, whatever the buffer holds.
    pub fn expect_length(_buf: &[u8]) -> (res: Result<usize, RespError>)
        ensures
            res == Ok::<usize, RespError>(5),
    {
        Ok(5)
    }

    /// Appends the wire form to `out`.
    pub fn encode_to(&self, out: &mut Vec<u8>)
        ensures
            final(out)@ == old(out)@ + null_bulk_form(),
    {
        out.push(BULK_STRING_MARKER);
        out.push(45);
        out.push(49);
        out.push(CR);
        out.push(LF);
        assert(out@ =~= old(out)@ + null_bulk_form());
    }

    /// The wire form: the literal `$-1\r\n`.
    pub fn encode(self) -> (out: Vec<u8>)
        ensures
            out@ == null_bulk_form(),
    {
        let mut out: Vec<u8> = Vec::new();
        self.encode_to(&mut out);
        assert(out@ =~= null_bulk_form());
        out
    }
}

impl BulkString {
    /// Takes one bulk string off the head of the buffer: the header gives
    /// the payload's length, and the payload and the two bytes behind it must
    /// have arrived. On any error the buffer is left as it was.
    pub fn decode(buf: &mut BytesMut) -> (res: Result<BulkString, RespError>)
        ensures
            match parse_bulk(buffered(*old(buf))) {
                Ok((data, used)) => res is Ok && res->Ok_0@ == data && buffered(*final(buf))
                    == buffered(*old(buf)).skip(used as int),
                Err(e) => res is Err && res->Err_0 == e && buffered(*final(buf)) == buffered(
                    *old(buf),
                ),
            },
    {
        let s = contents(buf);
        match parse_length(s, BULK_STRING_MARKER) {
            Ok((end, len)) => {
                if len < 0 {
                    return Err(RespError::InvalidFrameLength(len));
                }
                let len: usize = len as usize;
                let remained: usize = s.len() - (end + CRLF_LEN);
                if remained < len + CRLF_LEN {
                    return Err(RespError::NotComplete);
                }
                advance(buf, end + CRLF_LEN);
                let data = buf.split_to(len + CRLF_LEN);
                let payload = slice_to_vec(slice_subrange(contents(&data), 0, len));
                proof {
                    let all = buffered(*old(buf));
                    assert(payload@ =~= all.subrange(end + 2, end + 2 + len));
                    assert(buffered(*buf) =~= all.skip(end + 2 + len + 2));
                }
                Ok(BulkString::new(payload))
            },
            Err(e) => Err(e),
        }
    }

    /// How many bytes the bulk string at the head of `buf` takes once all of
    /// it has arrived. A length beyond what the machine can address is
    /// reported as incomplete.
    pub fn expect_length(buf: &[u8]) -> (res: Result<usize, RespError>)
        ensures
            match bulk_length(buf@) {
                Ok(n) => if n <= usize::MAX {
                    res == Ok::<usize, RespError>(n as usize)
                } else {
                    res == Err::<usize, RespError>(RespError::NotComplete)
                },
                Err(e) => res == Err::<usize, RespError>(e),
            },
    {
        match parse_length(buf, BULK_STRING_MARKER) {
            Ok((end, len)) => {
                if len < 0 {
                    return Err(RespError::InvalidFrameLength(len));
                }
                let body: usize = len as usize + CRLF_LEN;
                if end + CRLF_LEN > usize::MAX - body {
                    return Err(RespError::NotComplete);
                }
                Ok(end + CRLF_LEN + body)
            },
            Err(e) => Err(e),
        }
    }

    /// Appends the wire form to `out`.
    pub fn encode_to(&self, out: &mut Vec<u8>)
        ensures
            final(out)@ == old(out)@ + bulk_form(self@),
    {
        out.push(BULK_STRING_MARKER);
        push_decimal(out, self.0.len());
        out.push(CR);
        out.push(LF);
        out.extend_from_slice(self.0.as_slice());
        out.push(CR);
        out.push(LF);
        assert(out@ =~= old(out)@ + bulk_form(self@));
    }

    /// The wire form: the header with the payload's length, the payload, the
    /// line end.
    pub fn encode(self) -> (out: Vec<u8>)
        ensures
            out@ == bulk_form(self@),
    {
        let mut out: Vec<u8> = Vec::new();
        self.encode_to(&mut out);
        assert(out@ =~= bulk_form(self@));
        out
    }
}

impl core::ops::Deref for BulkString {
    type Target = Vec<u8>;

    fn deref(&self) -> (r: &Vec<u8>)
        ensures
            r@ == self@,
    {
        &self.0
    }
}

impl BulkString {
    /// The payload as a slice.
    pub fn as_ref(&self) -> (r: &[u8])
        ensures
            r@ == self@,
    {
        self.0.as_slice()
    }
}

impl From<&str> for BulkString {
    fn from(value: &str) -> (r: Self)
        ensures
            r@ == encode_utf8(value@),
    {
        BulkString(slice_to_vec(value.as_bytes()))
    }
}

impl FromSpecImpl<&str> for BulkString {
    open spec fn obeys_from_spec() -> bool {
        false
    }

    open spec fn from_spec(value: &str) -> Self {
        arbitrary()
    }
}

impl From<&[u8]> for BulkString {
    fn from(s: &[u8]) -> (r: Self)
        ensures
            r@ == s@,
    {
        BulkString(slice_to_vec(s))
    }
}

impl FromSpecImpl<&[u8]> for BulkString {
    open spec fn obeys_from_spec() -> bool {
        false
    }

    open spec fn from_spec(s: &[u8]) -> Self {
        arbitrary()
    }
}

impl<const N: usize> From<&[u8; N]> for BulkString {
    fn from(s: &[u8; N]) -> (r: Self)
        ensures
            r@ == s@,
    {
        BulkString(slice_to_vec(s.as_slice()))
    }
}

impl<const N: usize> FromSpecImpl<&[u8; N]> for BulkString {
    open spec fn obeys_from_spec() -> bool {
        false
    }

    open spec fn from_spec(s: &[u8; N]) -> Self {
        arbitrary()
    }
}

impl Clone for BulkString {
    fn clone(&self) -> (r: Self)
        ensures
            r@ == self@,
    {
        let copy = self.0.clone();
        assert(copy@ =~= self.0@);
        BulkString(copy)
    }
}

} // verus!
