//! Arrays, `*<count>\r\n<element>...<element>`, and the null array `*-1\r\n`.

use crate::buffer::{advance, buffered, contents};
use crate::decimal::push_decimal;
use crate::resp::frame::{lemma_views, views, RespFrame};
use crate::resp::wire::{
    array_length, header_form, lemma_parse_frame_bound, lemma_parse_frames_bound,
    lemma_wire_forms_push, match_literal, null_array_form, parse_array, parse_frame,
    parse_frames, wire_form, wire_forms, Frame,
};
use crate::resp::{
    calc_total_length, extract_fixed_data, parse_length, RespError, ARRAY_MARKER, CR, CRLF_LEN,
    LF,
};
use bytes::BytesMut;
use vstd::prelude::*;
use vstd::std_specs::convert::FromSpecImpl;

verus! {

/// An array: its elements in order, each a frame of any variant.
#[derive(Debug, PartialEq)]
pub struct RespArray(pub Vec<RespFrame>);

/// The null array.
#[derive(Debug, PartialEq, Eq, PartialOrd, Clone, Copy)]
pub struct RespNullArray;

impl View for RespArray {
    type V = Seq<Frame>;

    open spec fn view(&self) -> Seq<Frame> {
        views(self.0@)
    }
}

impl RespArray {
    /// The array of the given elements.
    pub fn new(s: Vec<RespFrame>) -> (r: Self)
        ensures
            r@ == views(s@),
    {
        RespArray(s)
    }
}

impl core::ops::Deref for RespArray {
    type Target = Vec<RespFrame>;

    fn deref(&self) -> (r: &Vec<RespFrame>)
        ensures
            views(r@) == self@,
            *r == self.0,
    {
        &self.0
    }
}

impl From<Vec<RespFrame>> for RespArray {
    fn from(s: Vec<RespFrame>) -> (r: Self)
        ensures
            r@ == views(s@),
    {
        RespArray(s)
    }
}

impl FromSpecImpl<Vec<RespFrame>> for RespArray {
    open spec fn obeys_from_spec() -> bool {
        true
    }

    open spec fn from_spec(s: Vec<RespFrame>) -> Self {
        RespArray(s)
    }
}

impl Clone for RespArray {
    fn clone(&self) -> (r: Self)
        ensures
            r@ == self@,
        decreases self, 0nat,
    {
        let n: usize = self.0.len();
        let mut items: Vec<RespFrame> = Vec::new();
        let mut i: usize = 0;
        while i < n
            invariant
                i <= n,
                n == self.0@.len(),
                items@.len() == i,
                forall|j: int| 0 <= j < i ==> (#[trigger] items@[j])@ == self.0@[j]@,
            decreases n - i,
        {
            items.push(self.0[i].clone());
            i = i + 1;
        }
        proof {
            lemma_views(items@);
            lemma_views(self.0@);
            assert(views(items@) =~= views(self.0@));
        }
        RespArray(items)
    }
}

impl RespNullArray {
    /// Takes the literal `*-1\r\n` off the head of the buffer.
    pub fn decode(buf: &mut BytesMut) -> (res: Result<RespNullArray, RespError>)
        ensures
            match match_literal(buffered(*old(buf)), null_array_form()) {
                Ok(used) => res is Ok && buffered(*final(buf)) == buffered(*old(buf)).skip(
                    used as int,
                ),
                Err(e) => res is Err && res->Err_0 == e && buffered(*final(buf)) == buffered(
                    *old(buf),
                ),
            },
    {
        let literal: [u8; 5] = [42, 45, 49, 13, 10];
        assert(literal@ =~= null_array_form());
        match extract_fixed_data(buf, literal.as_slice()) {
            Ok(()) => Ok(RespNullArray),
            Err(e) => Err(e),
        }
    }

    /// The length of the literal, whatever the buffer holds.
    pub fn expect_length(_buf: &[u8]) -> (res: Result<usize, RespError>)
        ensures
            res == Ok::<usize, RespError>(5),
    {
        Ok(5)
    }

    /// Appends the wire form to `out`.
    pub fn encode_to(&self, out: &mut Vec<u8>)
        ensures
            final(out)@ == old(out)@ + null_array_form(),
    {
        out.push(ARRAY_MARKER);
        out.push(45);
        out.push(49);
        out.push(CR);
        out.push(LF);
        assert(out@ =~= old(out)@ + null_array_form());
    }

    /// The wire form: the literal `*-1\r\n`.
    pub fn encode(self) -> (out: Vec<u8>)
        ensures
            out@ == null_array_form(),
    {
        let mut out: Vec<u8> = Vec::new();
        self.encode_to(&mut out);
        assert(out@ =~= null_array_form());
        out
    }
}

impl RespArray {
    /// Takes one array off the head of the buffer. The header gives the
    /// number of elements; the total-length calculator confirms that the
    /// header and every element, nested ones included, have arrived before
    /// anything is consumed. Only after that is the header dropped and each
    /// element decoded in order. On any error the buffer is left as it was.
    pub fn decode(buf: &mut BytesMut) -> (res: Result<RespArray, RespError>)
        ensures
            match parse_array(buffered(*old(buf))) {
                Ok((items, used)) => res is Ok && res->Ok_0@ == items && buffered(*final(buf))
                    == buffered(*old(buf)).skip(used as int),
                Err(e) => res is Err && res->Err_0 == e && buffered(*final(buf)) == buffered(
                    *old(buf),
                ),
            },
        decreases buffered(*old(buf)).len(), 0nat,
    {
        let s = contents(buf);
        let (end, len) = match parse_length(s, ARRAY_MARKER) {
            Ok(header) => header,
            Err(e) => {
                return Err(e);
            },
        };
        if len < 0 {
            return Err(RespError::InvalidFrameLength(len));
        }
        let len: usize = len as usize;
        // Nothing is consumed before the header and every element are known
        // to be buffered.
        match calc_total_length(s, end, len) {
            Ok(_) => {},
            Err(e) => {
                return Err(e);
            },
        }
        advance(buf, end + CRLF_LEN);
        let ghost all = buffered(*old(buf));
        let ghost rest = all.skip(end + 2);
        let ghost items = parse_frames(rest, len as nat)->Ok_0.0;
        let ghost used = parse_frames(rest, len as nat)->Ok_0.1;
        let ghost mut done: nat = 0;
        proof {
            lemma_parse_frames_bound(rest, len as nat);
            assert(rest.skip(0) =~= rest);
            assert(items.skip(0) =~= items);
        }
        let mut frames: Vec<RespFrame> = Vec::new();
        let mut i: usize = 0;
        while i < len
            invariant
                i <= len,
                rest.len() < all.len(),
                all == buffered(*old(buf)),
                items.len() == len,
                done <= used <= rest.len(),
                buffered(*buf) == rest.skip(done as int),
                parse_frames(rest.skip(done as int), (len - i) as nat) == Ok::<
                    (Seq<Frame>, nat),
                    RespError,
                >((items.skip(i as int), (used - done) as nat)),
                views(frames@) == items.take(i as int),
            decreases len - i,
        {
            let ghost here = rest.skip(done as int);
            proof {
                lemma_parse_frame_bound(here);
            }
            match RespFrame::decode(buf) {
                Ok(frame) => {
                    proof {
                        let step = parse_frame(here)->Ok_0.1;
                        let others = parse_frames(here.skip(step as int), (len - i - 1) as nat)->Ok_0.0;
                        assert(items.skip(i as int) == seq![frame@] + others);
                        assert(items[i as int] == items.skip(i as int)[0]);
                        assert(items.skip(i + 1) =~= items.skip(i as int).skip(1));
                        assert((seq![frame@] + others).skip(1) =~= others);
                        assert(others =~= items.skip(i + 1));
                        assert(here.skip(step as int) =~= rest.skip((done + step) as int));
                        let grown = frames@.push(frame);
                        assert(grown.drop_last() =~= frames@);
                        assert(views(grown) =~= items.take(i + 1));
                        done = done + step;
                    }
                    frames.push(frame);
                },
                Err(e) => {
                    // Not reached: every element was found buffered above.
                    return Err(e);
                },
            }
            i = i + 1;
        }
        proof {
            assert(items.take(len as int) =~= items);
            assert(rest.skip(used as int) =~= all.skip(end + 2 + used));
        }
        Ok(RespArray::new(frames))
    }

    /// How many bytes the array at the head of `buf` takes: the header and
    /// every element, all of which must have arrived.
    pub fn expect_length(buf: &[u8]) -> (res: Result<usize, RespError>)
        ensures
            match array_length(buf@) {
                Ok(n) => res is Ok && res->Ok_0 == n,
                Err(e) => res is Err && res->Err_0 == e,
            },
        decreases buf@.len(), 1nat,
    {
        match parse_length(buf, ARRAY_MARKER) {
            Ok((end, len)) => {
                if len < 0 {
                    return Err(RespError::InvalidFrameLength(len));
                }
                calc_total_length(buf, end, len as usize)
            },
            Err(e) => Err(e),
        }
    }

    /// Appends the wire form to `out`.
    pub fn encode_to(&self, out: &mut Vec<u8>)
        ensures
            final(out)@ == old(out)@ + wire_form(Frame::Array(self@)),
        decreases self, 0nat,
    {
        let n: usize = self.0.len();
        proof {
            lemma_views(self.0@);
        }
        out.push(ARRAY_MARKER);
        push_decimal(out, n);
        out.push(CR);
        out.push(LF);
        assert(out@ =~= old(out)@ + header_form(ARRAY_MARKER, n as nat));
        assert(self@.take(0) =~= Seq::<Frame>::empty());
        let mut i: usize = 0;
        while i < n
            invariant
                i <= n,
                n == self.0@.len(),
                n == self@.len(),
                out@ == old(out)@ + header_form(ARRAY_MARKER, n as nat) + wire_forms(
                    self@.take(i as int),
                ),
            decreases n - i,
        {
            self.0[i].encode_to(out);
            proof {
                lemma_views(self.0@);
                lemma_wire_forms_push(self@.take(i as int), self@[i as int]);
                assert(self@.take(i + 1) =~= self@.take(i as int).push(self@[i as int]));
                assert(out@ =~= old(out)@ + header_form(ARRAY_MARKER, n as nat) + wire_forms(
                    self@.take(i + 1),
                ));
            }
            i = i + 1;
        }
        assert(self@.take(n as int) =~= self@);
        assert(out@ =~= old(out)@ + wire_form(Frame::Array(self@)));
    }

    /// The wire form: the header with the number of elements, then each
    /// element's wire form in order.
    pub fn encode(self) -> (out: Vec<u8>)
        ensures
            out@ == wire_form(Frame::Array(self@)),
    {
        let mut out: Vec<u8> = Vec::new();
        self.encode_to(&mut out);
        assert(out@ =~= wire_form(Frame::Array(self@)));
        out
    }
}

} // verus!
