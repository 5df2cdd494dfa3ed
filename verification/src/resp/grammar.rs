//! What a buffer of received bytes means: the frame that stands at its
//! front with the number of bytes it takes, or that more bytes are needed,
//! or that no frame can start this way.

use vstd::prelude::*;
use vstd::utf8::valid_utf8;
use crate::resp::double::{is_double_text, is_sign};
use crate::resp::encode::{
    boolean_text, minus_one, TAG_ARRAY, TAG_BIG_NUMBER, TAG_BOOLEAN, TAG_BULK_ERROR,
    TAG_BULK_STRING, TAG_DOUBLE, TAG_ERROR, TAG_INTEGER, TAG_MAP, TAG_NULL, TAG_SET,
    TAG_SIMPLE_STRING,
};
use crate::resp::frame::Frame;
use crate::resp::order::put;
use crate::resp::text::{decimal_value, is_break, CR, LF, MINUS};

verus! {

/// The outcome of reading one item from the front of a buffer.
pub enum Parsed<T> {
    /// The item, and the number of bytes that it takes.
    Complete { value: T, used: nat },
    /// The bytes so far are the beginning of an item.
    Incomplete,
    /// No item starts with these bytes.
    Invalid,
}

/// The bytes that can start a frame.
pub open spec fn is_tag(b: u8) -> bool {
    ||| b == TAG_SIMPLE_STRING
    ||| b == TAG_ERROR
    ||| b == TAG_BULK_ERROR
    ||| b == TAG_INTEGER
    ||| b == TAG_BULK_STRING
    ||| b == TAG_ARRAY
    ||| b == TAG_NULL
    ||| b == TAG_BOOLEAN
    ||| b == TAG_DOUBLE
    ||| b == TAG_BIG_NUMBER
    ||| b == TAG_MAP
    ||| b == TAG_SET
}

/// The index of the first carriage return or line feed from `i` on, or the
/// length of `s` where there is none.
pub open spec fn break_from(s: Seq<u8>, i: nat) -> nat
    decreases s.len() - i,
{
    if i < s.len() && !is_break(s[i as int]) {
        break_from(s, i + 1)
    } else {
        i
    }
}

/// The line at the front of `s`: the text before the first line break,
/// which must be a carriage return followed by a line feed.
pub open spec fn parse_line(s: Seq<u8>) -> Parsed<Seq<u8>> {
    let end = break_from(s, 0);
    if end >= s.len() {
        Parsed::Incomplete
    } else if s[end as int] == LF {
        Parsed::Invalid
    } else if end + 1 >= s.len() {
        Parsed::Incomplete
    } else if s[end as int + 1] == LF {
        Parsed::Complete { value: s.take(end as int), used: end + 2 }
    } else {
        Parsed::Invalid
    }
}

/// A length or count field.
pub enum Length {
    /// The text `-1`, which marks an absent value.
    Absent,
    /// A decimal number that fits 64 bits.
    Count(nat),
    /// Anything else.
    Bad,
}

pub open spec fn parse_length(t: Seq<u8>) -> Length {
    if t == minus_one() {
        Length::Absent
    } else {
        match decimal_value(t) {
            Some(n) => if n <= u64::MAX {
                Length::Count(n)
            } else {
                Length::Bad
            },
            None => Length::Bad,
        }
    }
}

/// The integer written in `t`: an optional sign and digits, within the
/// range of 64 bits.
pub open spec fn parse_integer(t: Seq<u8>) -> Option<i64> {
    if t.len() == 0 {
        None
    } else {
        let digits = if is_sign(t[0]) {
            t.skip(1)
        } else {
            t
        };
        match decimal_value(digits) {
            Some(v) => if t[0] == MINUS {
                if v <= 0x8000_0000_0000_0000 {
                    Some((-v) as i64)
                } else {
                    None
                }
            } else if v <= i64::MAX {
                Some(v as i64)
            } else {
                None
            },
            None => None,
        }
    }
}

/// A payload of `n` bytes at the front of `s`, closed by a line terminator.
pub open spec fn parse_payload(s: Seq<u8>, n: nat) -> Parsed<Seq<u8>> {
    if s.len() < n + 2 {
        Parsed::Incomplete
    } else if s[n as int] == CR && s[n as int + 1] == LF {
        Parsed::Complete { value: s.take(n as int), used: n + 2 }
    } else {
        Parsed::Invalid
    }
}

/// The frame that holds line text behind `tag`.
pub open spec fn text_frame(tag: u8, t: Seq<u8>) -> Frame {
    if tag == TAG_SIMPLE_STRING {
        Frame::SimpleString(t)
    } else {
        Frame::Error(t)
    }
}

/// The frame that holds a payload behind `tag`.
pub open spec fn payload_frame(tag: u8, data: Seq<u8>) -> Frame {
    if tag == TAG_BULK_STRING {
        Frame::BulkString(data)
    } else if tag == TAG_BULK_ERROR {
        Frame::BulkError(data)
    } else {
        Frame::BigNumber(data)
    }
}

/// The frame that holds a sequence of frames behind `tag`.
pub open spec fn sequence_frame(tag: u8, fs: Seq<Frame>) -> Frame {
    if tag == TAG_ARRAY {
        Frame::Array(fs)
    } else {
        Frame::Members(fs)
    }
}

/// The map that the pairs `es` make when stored one after the other: a
/// later pair replaces an earlier one with the same key.
pub open spec fn collect(es: Seq<(Seq<u8>, Frame)>) -> Seq<(Seq<u8>, Frame)>
    decreases es.len(),
{
    if es.len() == 0 {
        Seq::empty()
    } else {
        put(collect(es.drop_last()), es.last().0, es.last().1)
    }
}

/// An outcome with `front` put before its items and `used` added to its
/// byte count.
pub open spec fn prepend<T>(front: Seq<T>, used: nat, rest: Parsed<Seq<T>>) -> Parsed<Seq<T>> {
    match rest {
        Parsed::Complete { value, used: more } => Parsed::Complete {
            value: front + value,
            used: used + more,
        },
        Parsed::Incomplete => Parsed::Incomplete,
        Parsed::Invalid => Parsed::Invalid,
    }
}

/// An outcome with the `head` bytes of a header added to its byte count.
pub open spec fn behind_header(head: nat, body: Parsed<Frame>) -> Parsed<Frame> {
    match body {
        Parsed::Complete { value, used } => Parsed::Complete { value, used: head + used },
        Parsed::Incomplete => Parsed::Incomplete,
        Parsed::Invalid => Parsed::Invalid,
    }
}

/// The tags of the frames that are one line: the text of the header line
/// is all there is to them.
pub open spec fn is_line_tag(tag: u8) -> bool {
    ||| tag == TAG_SIMPLE_STRING
    ||| tag == TAG_ERROR
    ||| tag == TAG_INTEGER
    ||| tag == TAG_NULL
    ||| tag == TAG_BOOLEAN
    ||| tag == TAG_DOUBLE
}

/// The one-line frame that `text` stands for behind `tag`, if it stands
/// for one.
pub open spec fn line_frame(tag: u8, text: Seq<u8>) -> Option<Frame> {
    if tag == TAG_SIMPLE_STRING || tag == TAG_ERROR {
        if valid_utf8(text) {
            Some(text_frame(tag, text))
        } else {
            None
        }
    } else if tag == TAG_INTEGER {
        match parse_integer(text) {
            Some(n) => Some(Frame::Integer(n)),
            None => None,
        }
    } else if tag == TAG_NULL {
        if text.len() == 0 {
            Some(Frame::Null)
        } else {
            None
        }
    } else if tag == TAG_BOOLEAN {
        if text == boolean_text(true) {
            Some(Frame::Boolean(true))
        } else if text == boolean_text(false) {
            Some(Frame::Boolean(false))
        } else {
            None
        }
    } else {
        if is_double_text(text) {
            Some(Frame::Double(text))
        } else {
            None
        }
    }
}

/// The header at the front of `s`: the tag and the text of the line that
/// follows it. The first byte must be a tag, whatever comes behind it.
pub open spec fn parse_header(s: Seq<u8>) -> Parsed<(u8, Seq<u8>)> {
    if s.len() == 0 {
        Parsed::Incomplete
    } else if !is_tag(s[0]) {
        Parsed::Invalid
    } else {
        match parse_line(s.skip(1)) {
            Parsed::Complete { value, used } => Parsed::Complete {
                value: (s[0], value),
                used: used + 1,
            },
            Parsed::Incomplete => Parsed::Incomplete,
            Parsed::Invalid => Parsed::Invalid,
        }
    }
}

/// The frame at the front of `s`.
///
/// The first byte selects the kind of frame and must be a tag. The header
/// line that follows is judged once it is complete. A frame with a payload
/// or with elements is complete when all of it has arrived.
pub open spec fn parse(s: Seq<u8>) -> Parsed<Frame>
    decreases s.len(), 0nat, 0nat,
{
    match parse_header(s) {
        Parsed::Incomplete => Parsed::Incomplete,
        Parsed::Invalid => Parsed::Invalid,
        Parsed::Complete { value: (tag, text), used: head } => {
            if is_line_tag(tag) {
                match line_frame(tag, text) {
                    Some(frame) => Parsed::Complete { value: frame, used: head },
                    None => Parsed::Invalid,
                }
            } else {
                behind_header(head, parse_body(tag, parse_length(text), s.skip(head as int)))
            }
        },
    }
}

/// What follows the header of a frame with a length field: nothing for an
/// absent bulk string or array, else the payload or the elements that the
/// length announces. The byte count is that of the body alone.
pub open spec fn parse_body(tag: u8, length: Length, rest: Seq<u8>) -> Parsed<Frame>
    decreases rest.len(), 2nat, 0nat,
{
    match length {
        Length::Bad => Parsed::Invalid,
        Length::Absent => if tag == TAG_BULK_STRING {
            Parsed::Complete { value: Frame::NullBulkString, used: 0 }
        } else if tag == TAG_ARRAY {
            Parsed::Complete { value: Frame::NullArray, used: 0 }
        } else {
            Parsed::Invalid
        },
        Length::Count(n) => if tag == TAG_ARRAY || tag == TAG_SET {
            match parse_all(rest, n) {
                Parsed::Complete { value, used } => Parsed::Complete {
                    value: sequence_frame(tag, value),
                    used,
                },
                Parsed::Incomplete => Parsed::Incomplete,
                Parsed::Invalid => Parsed::Invalid,
            }
        } else if tag == TAG_MAP {
            match parse_entries(rest, n) {
                Parsed::Complete { value, used } => Parsed::Complete {
                    value: Frame::Mapping(collect(value)),
                    used,
                },
                Parsed::Incomplete => Parsed::Incomplete,
                Parsed::Invalid => Parsed::Invalid,
            }
        } else {
            match parse_payload(rest, n) {
                Parsed::Complete { value, used } => Parsed::Complete {
                    value: payload_frame(tag, value),
                    used,
                },
                Parsed::Incomplete => Parsed::Incomplete,
                Parsed::Invalid => Parsed::Invalid,
            }
        },
    }
}

/// The `n` frames at the front of `s`.
pub open spec fn parse_all(s: Seq<u8>, n: nat) -> Parsed<Seq<Frame>>
    decreases s.len(), 1nat, n,
{
    if n == 0 {
        Parsed::Complete { value: Seq::empty(), used: 0 }
    } else {
        match parse(s) {
            Parsed::Complete { value, used } => if used <= s.len() {
                prepend(seq![value], used, parse_all(s.skip(used as int), (n - 1) as nat))
            } else {
                Parsed::Invalid
            },
            Parsed::Incomplete => Parsed::Incomplete,
            Parsed::Invalid => Parsed::Invalid,
        }
    }
}

/// The map entry at the front of `s`: a simple string for the key, then
/// the frame stored under it.
pub open spec fn parse_entry(s: Seq<u8>) -> Parsed<(Seq<u8>, Frame)>
    decreases s.len(), 0nat, 1nat,
{
    if s.len() > 0 && s[0] != TAG_SIMPLE_STRING {
        Parsed::Invalid
    } else {
        match parse(s) {
            Parsed::Complete { value: Frame::SimpleString(key), used } => if used <= s.len() {
                match parse(s.skip(used as int)) {
                    Parsed::Complete { value, used: more } => Parsed::Complete {
                        value: (key, value),
                        used: used + more,
                    },
                    Parsed::Incomplete => Parsed::Incomplete,
                    Parsed::Invalid => Parsed::Invalid,
                }
            } else {
                Parsed::Invalid
            },
            Parsed::Complete { .. } => Parsed::Invalid,
            Parsed::Incomplete => Parsed::Incomplete,
            Parsed::Invalid => Parsed::Invalid,
        }
    }
}

/// The `n` map entries at the front of `s`, in the order in which they
/// stand there.
pub open spec fn parse_entries(s: Seq<u8>, n: nat) -> Parsed<Seq<(Seq<u8>, Frame)>>
    decreases s.len(), 1nat, n,
{
    if n == 0 {
        Parsed::Complete { value: Seq::empty(), used: 0 }
    } else {
        match parse_entry(s) {
            Parsed::Complete { value, used } => if used <= s.len() {
                prepend(seq![value], used, parse_entries(s.skip(used as int), (n - 1) as nat))
            } else {
                Parsed::Invalid
            },
            Parsed::Incomplete => Parsed::Incomplete,
            Parsed::Invalid => Parsed::Invalid,
        }
    }
}

} // verus!
