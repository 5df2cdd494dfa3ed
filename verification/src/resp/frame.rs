//! Protocol values and their mathematical model.

use vstd::prelude::*;
use vstd::slice::slice_to_vec;
use vstd::string::StrSliceExecFns;
use vstd::string::StringSliceAdditionalSpecFns;
use vstd::utf8::valid_utf8;
use crate::resp::double::is_double_text;
use crate::resp::order::keys_ascending;
use crate::resp::text::no_breaks;

verus! {

/// The mathematical model of a protocol value: byte strings are sequences
/// of bytes, collections are sequences of models.
pub enum Frame {
    SimpleString(Seq<u8>),
    Error(Seq<u8>),
    BulkError(Seq<u8>),
    Integer(i64),
    BulkString(Seq<u8>),
    NullBulkString,
    Array(Seq<Frame>),
    NullArray,
    Null,
    Boolean(bool),
    Double(Seq<u8>),
    BigNumber(Seq<u8>),
    Mapping(Seq<(Seq<u8>, Frame)>),
    Members(Seq<Frame>),
}

/// Text that can travel on one line: well-formed UTF-8 without a carriage
/// return or line feed.
pub open spec fn is_line_text(t: Seq<u8>) -> bool {
    no_breaks(t) && valid_utf8(t)
}

impl Frame {
    /// The values that the wire format can carry faithfully. Line text has
    /// no line break, a double is written as a number, map keys are line
    /// text in strictly ascending order, and every length fits 64 bits.
    pub open spec fn wf(self) -> bool
        decreases self,
    {
        match self {
            Frame::SimpleString(t) => is_line_text(t),
            Frame::Error(t) => is_line_text(t),
            Frame::BulkError(b) => b.len() <= u64::MAX,
            Frame::Integer(_) => true,
            Frame::BulkString(b) => b.len() <= u64::MAX,
            Frame::NullBulkString => true,
            Frame::Array(fs) => fs.len() <= u64::MAX && forall|i: int|
                0 <= i < fs.len() ==> (#[trigger] fs[i]).wf(),
            Frame::NullArray => true,
            Frame::Null => true,
            Frame::Boolean(_) => true,
            Frame::Double(t) => no_breaks(t) && is_double_text(t),
            Frame::BigNumber(b) => b.len() <= u64::MAX,
            Frame::Mapping(es) => es.len() <= u64::MAX && keys_ascending(es) && forall|i: int|
                0 <= i < es.len() ==> is_line_text((#[trigger] es[i]).0) && es[i].1.wf(),
            Frame::Members(fs) => fs.len() <= u64::MAX && forall|i: int|
                0 <= i < fs.len() ==> (#[trigger] fs[i]).wf(),
        }
    }
}

/// What can be turned into the bytes of a payload.
pub trait IntoBytes: Sized {
    /// The bytes that the value stands for.
    spec fn bytes(&self) -> Seq<u8>;

    fn into_byte_vec(self) -> (v: Vec<u8>)
        ensures
            v@ == self.bytes(),
    ;
}

impl IntoBytes for Vec<u8> {
    open spec fn bytes(&self) -> Seq<u8> {
        self@
    }

    fn into_byte_vec(self) -> (v: Vec<u8>) {
        self
    }
}

impl IntoBytes for String {
    open spec fn bytes(&self) -> Seq<u8> {
        vstd::utf8::encode_utf8(self@)
    }

    fn into_byte_vec(self) -> (v: Vec<u8>) {
        self.as_str().as_bytes_vec()
    }
}

impl IntoBytes for &str {
    open spec fn bytes(&self) -> Seq<u8> {
        self.spec_bytes()
    }

    fn into_byte_vec(self) -> (v: Vec<u8>) {
        self.as_bytes_vec()
    }
}

impl IntoBytes for &[u8] {
    open spec fn bytes(&self) -> Seq<u8> {
        self@
    }

    fn into_byte_vec(self) -> (v: Vec<u8>) {
        slice_to_vec(self)
    }
}

impl<const N: usize> IntoBytes for &[u8; N] {
    open spec fn bytes(&self) -> Seq<u8> {
        self@
    }

    fn into_byte_vec(self) -> (v: Vec<u8>) {
        slice_to_vec(self.as_slice())
    }
}

/// Line-oriented text, sent behind `+`.
#[derive(Debug, Clone, PartialEq, Eq)]
pub struct SimpleString(pub Vec<u8>);

/// A line-oriented error message, sent behind `-`.
#[derive(Debug, Clone, PartialEq, Eq)]
pub struct SimpleError(pub Vec<u8>);

/// A length-prefixed error message, sent behind `!`.
#[derive(Debug, Clone, PartialEq, Eq)]
pub struct BulkError(pub Vec<u8>);

/// Length-prefixed raw bytes, sent behind `$`.
#[derive(Debug, Clone, PartialEq, Eq)]
pub struct BulkString(pub Vec<u8>);

/// A length-prefixed number of arbitrary size, sent behind `b`.
#[derive(Debug, Clone, PartialEq, Eq)]
pub struct BigNumber(pub Vec<u8>);

/// A floating-point value as its decimal text, sent behind `,`.
#[derive(Debug, Clone, PartialEq, Eq)]
pub struct RespDouble(pub Vec<u8>);

/// The null value, sent as `_`.
#[derive(Debug, Clone, Copy, PartialEq, Eq)]
pub struct RespNull;

/// The absent array, sent as `*-1`.
#[derive(Debug, Clone, Copy, PartialEq, Eq)]
pub struct RespNullArray;

/// The absent bulk string, sent as `$-1`.
#[derive(Debug, Clone, Copy, PartialEq, Eq)]
pub struct RespNullBulkString;

/// An ordered sequence of frames, sent behind `*`.
#[derive(Debug, PartialEq, Eq)]
pub struct RespArray(pub Vec<RespFrame>);

/// An ordered sequence of frames, sent behind `~`.
#[derive(Debug, PartialEq, Eq)]
pub struct RespSet(pub Vec<RespFrame>);

/// One key of a map with the frame stored under it.
#[derive(Debug, PartialEq, Eq)]
pub struct MapEntry {
    pub key: Vec<u8>,
    pub value: RespFrame,
}

/// Frames stored under text keys, sent behind `%`. Entries made through
/// [`RespMap::insert`] stand in ascending key order.
#[derive(Debug, PartialEq, Eq)]
pub struct RespMap(pub Vec<MapEntry>);

/// A protocol value.
#[derive(Debug, Eq)]
pub enum RespFrame {
    SimpleString(SimpleString),
    Error(SimpleError),
    BulkError(BulkError),
    Integer(i64),
    BulkString(BulkString),
    NullBulkString(RespNullBulkString),
    Array(RespArray),
    NullArray(RespNullArray),
    Null(RespNull),
    Boolean(bool),
    Double(RespDouble),
    BigNumber(BigNumber),
    Mapping(RespMap),
    Members(RespSet),
}

impl View for SimpleString {
    type V = Seq<u8>;

    open spec fn view(&self) -> Seq<u8> {
        self.0@
    }
}

impl View for SimpleError {
    type V = Seq<u8>;

    open spec fn view(&self) -> Seq<u8> {
        self.0@
    }
}

impl View for BulkError {
    type V = Seq<u8>;

    open spec fn view(&self) -> Seq<u8> {
        self.0@
    }
}

impl View for BulkString {
    type V = Seq<u8>;

    open spec fn view(&self) -> Seq<u8> {
        self.0@
    }
}

impl View for BigNumber {
    type V = Seq<u8>;

    open spec fn view(&self) -> Seq<u8> {
        self.0@
    }
}

impl View for RespDouble {
    type V = Seq<u8>;

    open spec fn view(&self) -> Seq<u8> {
        self.0@
    }
}

/// The models of the frames of `v`, in order.
pub open spec fn frames_view(v: &Vec<RespFrame>) -> Seq<Frame>
    decreases v,
{
    Seq::new(
        v.len() as nat,
        |i: int|
            if 0 <= i < v.len() {
                v[i].view()
            } else {
                Frame::Null
            },
    )
}

impl View for RespArray {
    type V = Seq<Frame>;

    open spec fn view(&self) -> Seq<Frame>
        decreases self,
    {
        frames_view(&self.0)
    }
}

impl View for RespSet {
    type V = Seq<Frame>;

    open spec fn view(&self) -> Seq<Frame>
        decreases self,
    {
        frames_view(&self.0)
    }
}

impl View for MapEntry {
    type V = (Seq<u8>, Frame);

    open spec fn view(&self) -> (Seq<u8>, Frame)
        decreases self,
    {
        (self.key@, self.value.view())
    }
}

impl View for RespMap {
    type V = Seq<(Seq<u8>, Frame)>;

    open spec fn view(&self) -> Seq<(Seq<u8>, Frame)>
        decreases self,
    {
        Seq::new(
            self.0.len() as nat,
            |i: int|
                if 0 <= i < self.0.len() {
                    self.0[i].view()
                } else {
                    (Seq::empty(), Frame::Null)
                },
        )
    }
}

impl View for RespFrame {
    type V = Frame;

    open spec fn view(&self) -> Frame
        decreases self,
    {
        match self {
            RespFrame::SimpleString(s) => Frame::SimpleString(s.0@),
            RespFrame::Error(s) => Frame::Error(s.0@),
            RespFrame::BulkError(s) => Frame::BulkError(s.0@),
            RespFrame::Integer(n) => Frame::Integer(*n),
            RespFrame::BulkString(s) => Frame::BulkString(s.0@),
            RespFrame::NullBulkString(_) => Frame::NullBulkString,
            RespFrame::Array(a) => Frame::Array(a.view()),
            RespFrame::NullArray(_) => Frame::NullArray,
            RespFrame::Null(_) => Frame::Null,
            RespFrame::Boolean(b) => Frame::Boolean(*b),
            RespFrame::Double(d) => Frame::Double(d.0@),
            RespFrame::BigNumber(n) => Frame::BigNumber(n.0@),
            RespFrame::Mapping(m) => Frame::Mapping(m.view()),
            RespFrame::Members(s) => Frame::Members(s.view()),
        }
    }
}

/// Copies the frames of `v`.
fn clone_frames(v: &Vec<RespFrame>) -> (r: Vec<RespFrame>)
    ensures
        frames_view(&r) == frames_view(v),
    decreases v,
{
    let mut r: Vec<RespFrame> = Vec::new();
    let mut i: usize = 0;
    while i < v.len()
        invariant
            i <= v.len(),
            r.len() == i,
            forall|j: int| 0 <= j < i ==> r[j]@ == v[j]@,
        decreases v.len() - i,
    {
        let f = v[i].clone();
        r.push(f);
        i += 1;
    }
    assert(frames_view(&r) =~= frames_view(v));
    r
}

impl Clone for RespArray {
    fn clone(&self) -> (r: Self)
        ensures
            r@ == self@,
        decreases self,
    {
        RespArray(clone_frames(&self.0))
    }
}

impl Clone for RespSet {
    fn clone(&self) -> (r: Self)
        ensures
            r@ == self@,
        decreases self,
    {
        RespSet(clone_frames(&self.0))
    }
}

impl Clone for MapEntry {
    fn clone(&self) -> (r: Self)
        ensures
            r@ == self@,
        decreases self,
    {
        MapEntry { key: self.key.clone(), value: self.value.clone() }
    }
}

impl Clone for RespMap {
    fn clone(&self) -> (r: Self)
        ensures
            r@ == self@,
        decreases self,
    {
        let mut v: Vec<MapEntry> = Vec::new();
        let mut i: usize = 0;
        while i < self.0.len()
            invariant
                i <= self.0.len(),
                v.len() == i,
                forall|j: int| 0 <= j < i ==> v[j]@ == self.0[j]@,
            decreases self.0.len() - i,
        {
            let e = self.0[i].clone();
            v.push(e);
            i += 1;
        }
        let r = RespMap(v);
        assert(r@ =~= self@);
        r
    }
}

impl Clone for RespFrame {
    fn clone(&self) -> (r: Self)
        ensures
            r@ == self@,
        decreases self,
    {
        match self {
            RespFrame::SimpleString(s) => RespFrame::SimpleString(SimpleString(s.0.clone())),
            RespFrame::Error(s) => RespFrame::Error(SimpleError(s.0.clone())),
            RespFrame::BulkError(s) => RespFrame::BulkError(BulkError(s.0.clone())),
            RespFrame::Integer(n) => RespFrame::Integer(*n),
            RespFrame::BulkString(s) => RespFrame::BulkString(BulkString(s.0.clone())),
            RespFrame::NullBulkString(_) => RespFrame::NullBulkString(RespNullBulkString),
            RespFrame::Array(a) => RespFrame::Array(a.clone()),
            RespFrame::NullArray(_) => RespFrame::NullArray(RespNullArray),
            RespFrame::Null(_) => RespFrame::Null(RespNull),
            RespFrame::Boolean(b) => RespFrame::Boolean(*b),
            RespFrame::Double(d) => RespFrame::Double(RespDouble(d.0.clone())),
            RespFrame::BigNumber(n) => RespFrame::BigNumber(BigNumber(n.0.clone())),
            RespFrame::Mapping(m) => RespFrame::Mapping(m.clone()),
            RespFrame::Members(s) => RespFrame::Members(s.clone()),
        }
    }
}

impl SimpleString {
    pub fn new<T: IntoBytes>(text: T) -> (r: Self)
        ensures
            r@ == text.bytes(),
    {
        SimpleString(text.into_byte_vec())
    }
}

impl SimpleError {
    pub fn new<T: IntoBytes>(text: T) -> (r: Self)
        ensures
            r@ == text.bytes(),
    {
        SimpleError(text.into_byte_vec())
    }
}

impl BulkError {
    pub fn new<T: IntoBytes>(data: T) -> (r: Self)
        ensures
            r@ == data.bytes(),
    {
        BulkError(data.into_byte_vec())
    }
}

impl BulkString {
    pub fn new<T: IntoBytes>(data: T) -> (r: Self)
        ensures
            r@ == data.bytes(),
    {
        BulkString(data.into_byte_vec())
    }
}

impl BigNumber {
    pub fn new<T: IntoBytes>(data: T) -> (r: Self)
        ensures
            r@ == data.bytes(),
    {
        BigNumber(data.into_byte_vec())
    }
}

impl RespDouble {
    /// A double from its decimal text.
    pub fn new<T: IntoBytes>(text: T) -> (r: Self)
        ensures
            r@ == text.bytes(),
    {
        RespDouble(text.into_byte_vec())
    }
}

impl RespArray {
    pub fn new(frames: Vec<RespFrame>) -> (r: Self)
        ensures
            r@ == frames_view(&frames),
    {
        RespArray(frames)
    }

    pub fn len(&self) -> (n: usize)
        ensures
            n == self@.len(),
    {
        self.0.len()
    }
}

impl RespSet {
    pub fn new(frames: Vec<RespFrame>) -> (r: Self)
        ensures
            r@ == frames_view(&frames),
    {
        RespSet(frames)
    }

    pub fn len(&self) -> (n: usize)
        ensures
            n == self@.len(),
    {
        self.0.len()
    }
}

} // verus!
