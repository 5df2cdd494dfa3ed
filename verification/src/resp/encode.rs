//! The wire form of a frame, and the encoder that writes it.
//!
//! ```text
//! simple string    +<text>\r\n
//! error            -<text>\r\n
//! bulk error       !<length>\r\n<bytes>\r\n
//! integer          :<sign><digits>\r\n
//! bulk string      $<length>\r\n<bytes>\r\n
//! null bulk string $-1\r\n
//! array            *<count>\r\n<frame>...
//! null array       *-1\r\n
//! null             _\r\n
//! boolean          #t\r\n or #f\r\n
//! double           ,<text>\r\n
//! big number       b<length>\r\n<bytes>\r\n
//! map              %<count>\r\n(+<key>\r\n<frame>)...
//! set              ~<count>\r\n<frame>...
//! ```

use vstd::prelude::*;
use crate::resp::frame::{
    frames_view, BigNumber, BulkError, BulkString, Frame, MapEntry, RespArray, RespDouble,
    RespFrame, RespMap, RespNull, RespNullArray, RespNullBulkString, RespSet, SimpleError,
    SimpleString,
};
use crate::resp::text::{crlf, decimal, push_decimal, CR, LF, MINUS, PLUS};

verus! {

pub const TAG_SIMPLE_STRING: u8 = 43;

pub const TAG_ERROR: u8 = 45;

pub const TAG_BULK_ERROR: u8 = 33;

pub const TAG_INTEGER: u8 = 58;

pub const TAG_BULK_STRING: u8 = 36;

pub const TAG_ARRAY: u8 = 42;

pub const TAG_NULL: u8 = 95;

pub const TAG_BOOLEAN: u8 = 35;

pub const TAG_DOUBLE: u8 = 44;

pub const TAG_BIG_NUMBER: u8 = 98;

pub const TAG_MAP: u8 = 37;

pub const TAG_SET: u8 = 126;

/// A tag, a text and the line terminator.
pub open spec fn line(tag: u8, text: Seq<u8>) -> Seq<u8> {
    seq![tag] + text + crlf()
}

/// A tag, the length of the payload on a line of its own, the payload and
/// the line terminator.
pub open spec fn bulk(tag: u8, data: Seq<u8>) -> Seq<u8> {
    line(tag, decimal(data.len())) + data + crlf()
}

/// The text that marks an absent bulk string or array, `-1`.
pub open spec fn minus_one() -> Seq<u8> {
    seq![MINUS, 49u8]
}

/// An integer with its sign always written: `+` for zero and above.
pub open spec fn integer_text(n: i64) -> Seq<u8> {
    if n < 0 {
        seq![MINUS] + decimal((-n) as nat)
    } else {
        seq![PLUS] + decimal(n as nat)
    }
}

/// `t` for true, `f` for false.
pub open spec fn boolean_text(b: bool) -> Seq<u8> {
    if b {
        seq![116u8]
    } else {
        seq![102u8]
    }
}

impl Frame {
    /// The bytes that stand for the frame on the wire.
    pub open spec fn wire(self) -> Seq<u8>
        decreases self,
    {
        match self {
            Frame::SimpleString(t) => line(TAG_SIMPLE_STRING, t),
            Frame::Error(t) => line(TAG_ERROR, t),
            Frame::BulkError(b) => bulk(TAG_BULK_ERROR, b),
            Frame::Integer(n) => line(TAG_INTEGER, integer_text(n)),
            Frame::BulkString(b) => bulk(TAG_BULK_STRING, b),
            Frame::NullBulkString => line(TAG_BULK_STRING, minus_one()),
            Frame::Array(fs) => line(TAG_ARRAY, decimal(fs.len())) + wire_all(fs),
            Frame::NullArray => line(TAG_ARRAY, minus_one()),
            Frame::Null => line(TAG_NULL, Seq::empty()),
            Frame::Boolean(b) => line(TAG_BOOLEAN, boolean_text(b)),
            Frame::Double(t) => line(TAG_DOUBLE, t),
            Frame::BigNumber(b) => bulk(TAG_BIG_NUMBER, b),
            Frame::Mapping(es) => line(TAG_MAP, decimal(es.len())) + wire_entries(es),
            Frame::Members(fs) => line(TAG_SET, decimal(fs.len())) + wire_all(fs),
        }
    }
}

/// The wire forms of `fs`, one behind the other.
pub open spec fn wire_all(fs: Seq<Frame>) -> Seq<u8>
    decreases fs,
{
    if fs.len() == 0 {
        Seq::empty()
    } else {
        wire_all(fs.drop_last()) + fs.last().wire()
    }
}

/// One map entry on the wire: the key as a simple string, then the value.
pub open spec fn wire_entry(e: (Seq<u8>, Frame)) -> Seq<u8>
    decreases e,
{
    line(TAG_SIMPLE_STRING, e.0) + e.1.wire()
}

/// The wire forms of the entries `es`, in the order in which they stand.
pub open spec fn wire_entries(es: Seq<(Seq<u8>, Frame)>) -> Seq<u8>
    decreases es,
{
    if es.len() == 0 {
        Seq::empty()
    } else {
        wire_entries(es.drop_last()) + wire_entry(es.last())
    }
}

/// Appends `data` to `out`.
fn append(out: &mut Vec<u8>, data: &[u8])
    ensures
        final(out)@ == old(out)@ + data@,
{
    out.extend_from_slice(data);
    assert(out@ =~= old(out)@ + data@);
}

fn put_crlf(out: &mut Vec<u8>)
    ensures
        final(out)@ == old(out)@ + crlf(),
{
    out.push(CR);
    out.push(LF);
    assert(out@ =~= old(out)@ + crlf());
}

/// Appends `tag`, `text` and the line terminator.
fn put_line(out: &mut Vec<u8>, tag: u8, text: &[u8])
    ensures
        final(out)@ == old(out)@ + line(tag, text@),
{
    out.push(tag);
    append(out, text);
    put_crlf(out);
    assert(out@ =~= old(out)@ + line(tag, text@));
}

/// Appends `tag`, the number `n` in decimal and the line terminator.
fn put_count(out: &mut Vec<u8>, tag: u8, n: usize)
    ensures
        final(out)@ == old(out)@ + line(tag, decimal(n as nat)),
{
    out.push(tag);
    push_decimal(out, n as u64);
    put_crlf(out);
    assert(out@ =~= old(out)@ + line(tag, decimal(n as nat)));
}

/// Appends a length-prefixed payload.
fn put_bulk(out: &mut Vec<u8>, tag: u8, data: &[u8])
    ensures
        final(out)@ == old(out)@ + bulk(tag, data@),
{
    put_count(out, tag, data.len());
    append(out, data);
    put_crlf(out);
    assert(out@ =~= old(out)@ + bulk(tag, data@));
}

/// Appends `-1` behind `tag`.
fn put_absent(out: &mut Vec<u8>, tag: u8)
    ensures
        final(out)@ == old(out)@ + line(tag, minus_one()),
{
    out.push(tag);
    out.push(MINUS);
    out.push(49u8);
    put_crlf(out);
    assert(out@ =~= old(out)@ + line(tag, minus_one()));
}

/// Appends an integer frame.
fn put_integer(out: &mut Vec<u8>, n: i64)
    ensures
        final(out)@ == old(out)@ + line(TAG_INTEGER, integer_text(n)),
{
    out.push(TAG_INTEGER);
    if n < 0 {
        out.push(MINUS);
        let magnitude: u64 = (-(n + 1)) as u64 + 1;
        push_decimal(out, magnitude);
    } else {
        out.push(PLUS);
        push_decimal(out, n as u64);
    }
    put_crlf(out);
    assert(out@ =~= old(out)@ + line(TAG_INTEGER, integer_text(n)));
}

/// Appends a boolean frame.
fn put_boolean(out: &mut Vec<u8>, b: bool)
    ensures
        final(out)@ == old(out)@ + line(TAG_BOOLEAN, boolean_text(b)),
{
    out.push(TAG_BOOLEAN);
    if b {
        out.push(116u8);
    } else {
        out.push(102u8);
    }
    put_crlf(out);
    assert(out@ =~= old(out)@ + line(TAG_BOOLEAN, boolean_text(b)));
}

/// Appends the wire forms of the frames of `v`, in order.
fn put_frames(out: &mut Vec<u8>, v: &Vec<RespFrame>)
    ensures
        final(out)@ == old(out)@ + wire_all(frames_view(v)),
    decreases v,
{
    let ghost fs = frames_view(v);
    let mut i: usize = 0;
    assert(fs.take(0) =~= Seq::<Frame>::empty());
    while i < v.len()
        invariant
            i <= v.len(),
            fs == frames_view(v),
            out@ == old(out)@ + wire_all(fs.take(i as int)),
        decreases v.len() - i,
    {
        v[i].encode_into(out);
        proof {
            assert(fs.take(i + 1).drop_last() =~= fs.take(i as int));
            assert(fs.take(i + 1).last() == v[i as int]@);
            assert(out@ =~= old(out)@ + wire_all(fs.take(i + 1)));
        }
        i += 1;
    }
    assert(fs.take(v.len() as int) =~= fs);
}

/// Appends the wire forms of the entries of `v`, in order.
fn put_entries(out: &mut Vec<u8>, v: &Vec<MapEntry>)
    ensures
        final(out)@ == old(out)@ + wire_entries(RespMap(*v)@),
    decreases v,
{
    let ghost es = RespMap(*v)@;
    let mut i: usize = 0;
    assert(es.take(0) =~= Seq::<(Seq<u8>, Frame)>::empty());
    while i < v.len()
        invariant
            i <= v.len(),
            es == RespMap(*v)@,
            out@ == old(out)@ + wire_entries(es.take(i as int)),
        decreases v.len() - i,
    {
        let ghost before = out@;
        put_line(out, TAG_SIMPLE_STRING, v[i].key.as_slice());
        v[i].value.encode_into(out);
        proof {
            let e = es.take(i + 1).last();
            assert(es.take(i + 1).drop_last() =~= es.take(i as int));
            assert(e == v[i as int]@);
            assert(out@ =~= before + wire_entry(e));
            assert(out@ =~= old(out)@ + wire_entries(es.take(i + 1)));
        }
        i += 1;
    }
    assert(es.take(v.len() as int) =~= es);
}

impl RespFrame {
    /// Appends the wire form of the frame to `out`.
    pub fn encode_into(&self, out: &mut Vec<u8>)
        ensures
            final(out)@ == old(out)@ + self@.wire(),
        decreases self,
    {
        match self {
            RespFrame::SimpleString(s) => put_line(out, TAG_SIMPLE_STRING, s.0.as_slice()),
            RespFrame::Error(s) => put_line(out, TAG_ERROR, s.0.as_slice()),
            RespFrame::BulkError(s) => put_bulk(out, TAG_BULK_ERROR, s.0.as_slice()),
            RespFrame::Integer(n) => put_integer(out, *n),
            RespFrame::BulkString(s) => put_bulk(out, TAG_BULK_STRING, s.0.as_slice()),
            RespFrame::NullBulkString(_) => put_absent(out, TAG_BULK_STRING),
            RespFrame::Array(a) => {
                put_count(out, TAG_ARRAY, a.0.len());
                put_frames(out, &a.0);
                assert(out@ =~= old(out)@ + self@.wire());
            },
            RespFrame::NullArray(_) => put_absent(out, TAG_ARRAY),
            RespFrame::Null(_) => {
                out.push(TAG_NULL);
                put_crlf(out);
                assert(out@ =~= old(out)@ + self@.wire());
            },
            RespFrame::Boolean(b) => put_boolean(out, *b),
            RespFrame::Double(d) => put_line(out, TAG_DOUBLE, d.0.as_slice()),
            RespFrame::BigNumber(n) => put_bulk(out, TAG_BIG_NUMBER, n.0.as_slice()),
            RespFrame::Mapping(m) => {
                put_count(out, TAG_MAP, m.0.len());
                put_entries(out, &m.0);
                assert(out@ =~= old(out)@ + self@.wire());
            },
            RespFrame::Members(s) => {
                put_count(out, TAG_SET, s.0.len());
                put_frames(out, &s.0);
                assert(out@ =~= old(out)@ + self@.wire());
            },
        }
    }

}

/// What has a wire form of its own.
pub trait RespEncode: Sized {
    /// The bytes that stand for the value on the wire.
    spec fn wire_form(&self) -> Seq<u8>;

    /// Encodes the value.
    fn encode(self) -> (bytes: Vec<u8>)
        ensures
            bytes@ == self.wire_form(),
    ;
}

impl RespEncode for RespFrame {
    open spec fn wire_form(&self) -> Seq<u8> {
        self@.wire()
    }

    fn encode(self) -> (bytes: Vec<u8>) {
        let mut out: Vec<u8> = Vec::new();
        self.encode_into(&mut out);
        assert(out@ =~= self@.wire());
        out
    }
}

impl RespEncode for SimpleString {
    open spec fn wire_form(&self) -> Seq<u8> {
        Frame::SimpleString(self@).wire()
    }

    fn encode(self) -> (bytes: Vec<u8>) {
        let mut out: Vec<u8> = Vec::new();
        put_line(&mut out, TAG_SIMPLE_STRING, self.0.as_slice());
        assert(out@ =~= self.wire_form());
        out
    }
}

impl RespEncode for SimpleError {
    open spec fn wire_form(&self) -> Seq<u8> {
        Frame::Error(self@).wire()
    }

    fn encode(self) -> (bytes: Vec<u8>) {
        let mut out: Vec<u8> = Vec::new();
        put_line(&mut out, TAG_ERROR, self.0.as_slice());
        assert(out@ =~= self.wire_form());
        out
    }
}

impl RespEncode for BulkError {
    open spec fn wire_form(&self) -> Seq<u8> {
        Frame::BulkError(self@).wire()
    }

    fn encode(self) -> (bytes: Vec<u8>) {
        let mut out: Vec<u8> = Vec::new();
        put_bulk(&mut out, TAG_BULK_ERROR, self.0.as_slice());
        assert(out@ =~= self.wire_form());
        out
    }
}

impl RespEncode for BulkString {
    open spec fn wire_form(&self) -> Seq<u8> {
        Frame::BulkString(self@).wire()
    }

    fn encode(self) -> (bytes: Vec<u8>) {
        let mut out: Vec<u8> = Vec::new();
        put_bulk(&mut out, TAG_BULK_STRING, self.0.as_slice());
        assert(out@ =~= self.wire_form());
        out
    }
}

impl RespEncode for BigNumber {
    open spec fn wire_form(&self) -> Seq<u8> {
        Frame::BigNumber(self@).wire()
    }

    fn encode(self) -> (bytes: Vec<u8>) {
        let mut out: Vec<u8> = Vec::new();
        put_bulk(&mut out, TAG_BIG_NUMBER, self.0.as_slice());
        assert(out@ =~= self.wire_form());
        out
    }
}

impl RespEncode for RespDouble {
    open spec fn wire_form(&self) -> Seq<u8> {
        Frame::Double(self@).wire()
    }

    fn encode(self) -> (bytes: Vec<u8>) {
        let mut out: Vec<u8> = Vec::new();
        put_line(&mut out, TAG_DOUBLE, self.0.as_slice());
        assert(out@ =~= self.wire_form());
        out
    }
}

impl RespEncode for i64 {
    open spec fn wire_form(&self) -> Seq<u8> {
        Frame::Integer(*self).wire()
    }

    fn encode(self) -> (bytes: Vec<u8>) {
        let mut out: Vec<u8> = Vec::new();
        put_integer(&mut out, self);
        assert(out@ =~= self.wire_form());
        out
    }
}

impl RespEncode for bool {
    open spec fn wire_form(&self) -> Seq<u8> {
        Frame::Boolean(*self).wire()
    }

    fn encode(self) -> (bytes: Vec<u8>) {
        let mut out: Vec<u8> = Vec::new();
        put_boolean(&mut out, self);
        assert(out@ =~= self.wire_form());
        out
    }
}

impl RespEncode for RespNullBulkString {
    open spec fn wire_form(&self) -> Seq<u8> {
        Frame::NullBulkString.wire()
    }

    fn encode(self) -> (bytes: Vec<u8>) {
        let mut out: Vec<u8> = Vec::new();
        put_absent(&mut out, TAG_BULK_STRING);
        assert(out@ =~= self.wire_form());
        out
    }
}

impl RespEncode for RespNullArray {
    open spec fn wire_form(&self) -> Seq<u8> {
        Frame::NullArray.wire()
    }

    fn encode(self) -> (bytes: Vec<u8>) {
        let mut out: Vec<u8> = Vec::new();
        put_absent(&mut out, TAG_ARRAY);
        assert(out@ =~= self.wire_form());
        out
    }
}

impl RespEncode for RespNull {
    open spec fn wire_form(&self) -> Seq<u8> {
        Frame::Null.wire()
    }

    fn encode(self) -> (bytes: Vec<u8>) {
        let mut out: Vec<u8> = Vec::new();
        out.push(TAG_NULL);
        put_crlf(&mut out);
        assert(out@ =~= self.wire_form());
        out
    }
}

impl RespEncode for RespArray {
    open spec fn wire_form(&self) -> Seq<u8> {
        Frame::Array(self@).wire()
    }

    fn encode(self) -> (bytes: Vec<u8>) {
        let mut out: Vec<u8> = Vec::new();
        put_count(&mut out, TAG_ARRAY, self.0.len());
        put_frames(&mut out, &self.0);
        assert(out@ =~= self.wire_form());
        out
    }
}

impl RespEncode for RespSet {
    open spec fn wire_form(&self) -> Seq<u8> {
        Frame::Members(self@).wire()
    }

    fn encode(self) -> (bytes: Vec<u8>) {
        let mut out: Vec<u8> = Vec::new();
        put_count(&mut out, TAG_SET, self.0.len());
        put_frames(&mut out, &self.0);
        assert(out@ =~= self.wire_form());
        out
    }
}

impl RespEncode for RespMap {
    open spec fn wire_form(&self) -> Seq<u8> {
        Frame::Mapping(self@).wire()
    }

    fn encode(self) -> (bytes: Vec<u8>) {
        let mut out: Vec<u8> = Vec::new();
        put_count(&mut out, TAG_MAP, self.0.len());
        put_entries(&mut out, &self.0);
        assert(out@ =~= self.wire_form());
        out
    }
}


} // verus!
