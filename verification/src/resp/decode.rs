//! The decoder: reads the frame at the front of a buffer, as the grammar
//! defines it, without changing the buffer.

use vstd::prelude::*;
use vstd::slice::{slice_subrange, slice_to_vec};
use crate::resp::double::is_double;
use crate::resp::encode::{
    boolean_text, minus_one, TAG_ARRAY, TAG_BIG_NUMBER, TAG_BOOLEAN, TAG_BULK_ERROR,
    TAG_BULK_STRING, TAG_DOUBLE, TAG_ERROR, TAG_INTEGER, TAG_MAP, TAG_NULL, TAG_SET,
    TAG_SIMPLE_STRING,
};
use crate::resp::error::RespError;
use crate::resp::frame::{
    frames_view, BigNumber, BulkError, BulkString, Frame, RespArray, RespDouble, RespFrame,
    RespMap, RespNull, RespNullArray, RespNullBulkString, RespSet, SimpleError, SimpleString,
};
use crate::resp::grammar::{
    break_from, collect, is_line_tag, is_tag, line_frame, parse, parse_all, parse_body,
    parse_entries, parse_entry, parse_header, parse_integer, parse_length, parse_line,
    parse_payload, prepend, Length, Parsed,
};
use crate::resp::laws::sound::lemma_parse_sound;
use crate::resp::text::{is_utf8, read_decimal, CR, LF, MINUS, PLUS};

verus! {

/// A length or count field as the decoder holds it.
enum LengthField {
    Absent,
    Count(u64),
    Bad,
}

fn is_line_tag_byte(b: u8) -> (r: bool)
    ensures
        r == is_line_tag(b),
{
    b == TAG_SIMPLE_STRING || b == TAG_ERROR || b == TAG_INTEGER || b == TAG_NULL || b
        == TAG_BOOLEAN || b == TAG_DOUBLE
}

fn is_tag_byte(b: u8) -> (r: bool)
    ensures
        r == is_tag(b),
{
    b == TAG_SIMPLE_STRING || b == TAG_ERROR || b == TAG_BULK_ERROR || b == TAG_INTEGER || b
        == TAG_BULK_STRING || b == TAG_ARRAY || b == TAG_NULL || b == TAG_BOOLEAN || b
        == TAG_DOUBLE || b == TAG_BIG_NUMBER || b == TAG_MAP || b == TAG_SET
}

/// Finds the end of the line that starts at `pos`: the index of its
/// carriage return.
fn find_line(buf: &[u8], pos: usize) -> (r: Result<usize, RespError>)
    requires
        pos <= buf.len(),
    ensures
        match parse_line(buf@.skip(pos as int)) {
            Parsed::Complete { value, used } => r matches Ok(end) && pos <= end && end + 2
                <= buf.len() && value == buf@.subrange(pos as int, end as int) && used == end
                - pos + 2,
            Parsed::Incomplete => r == Err::<usize, RespError>(RespError::NotComplete),
            Parsed::Invalid => r == Err::<usize, RespError>(RespError::InvalidFrame),
        },
{
    let ghost s = buf@.skip(pos as int);
    let mut j: usize = pos;
    while j < buf.len() && buf[j] != CR && buf[j] != LF
        invariant
            pos <= j <= buf.len(),
            s == buf@.skip(pos as int),
            break_from(s, 0) == break_from(s, (j - pos) as nat),
        decreases buf.len() - j,
    {
        j += 1;
    }
    if j >= buf.len() {
        return Err(RespError::NotComplete);
    }
    if buf[j] == LF {
        return Err(RespError::InvalidFrame);
    }
    if j + 1 >= buf.len() {
        return Err(RespError::NotComplete);
    }
    if buf[j + 1] == LF {
        assert(s.take(j - pos) =~= buf@.subrange(pos as int, j as int));
        Ok(j)
    } else {
        Err(RespError::InvalidFrame)
    }
}

/// Reads the length field written in `buf[start..end]`.
fn read_length(buf: &[u8], start: usize, end: usize) -> (r: LengthField)
    requires
        start <= end <= buf.len(),
    ensures
        r.model() == parse_length(buf@.subrange(start as int, end as int)),
{
    let ghost t = buf@.subrange(start as int, end as int);
    if end - start == 2 && buf[start] == MINUS && buf[start + 1] == 49 {
        assert(t =~= minus_one());
        return LengthField::Absent;
    }
    assert(t != minus_one()) by {
        if t == minus_one() {
            assert(minus_one().len() == 2);
            assert(minus_one()[0] == MINUS && minus_one()[1] == 49u8);
            assert(t[0] == buf[start as int] && t[1] == buf[start + 1]);
        }
    }
    match read_decimal(buf, start, end) {
        Some(n) => LengthField::Count(n),
        None => LengthField::Bad,
    }
}

/// Reads the integer written in `buf[start..end]`.
fn read_integer(buf: &[u8], start: usize, end: usize) -> (r: Option<i64>)
    requires
        start <= end <= buf.len(),
    ensures
        r == parse_integer(buf@.subrange(start as int, end as int)),
{
    let ghost t = buf@.subrange(start as int, end as int);
    if start == end {
        return None;
    }
    let first: u8 = buf[start];
    let digits: usize = if first == PLUS || first == MINUS {
        start + 1
    } else {
        start
    };
    proof {
        assert(t[0] == first);
        if digits == start {
            assert(buf@.subrange(digits as int, end as int) =~= t);
        } else {
            assert(buf@.subrange(digits as int, end as int) =~= t.skip(1));
        }
    }
    match read_decimal(buf, digits, end) {
        Some(v) => {
            if first == MINUS {
                if v < 0x8000_0000_0000_0000 {
                    Some(-(v as i64))
                } else if v == 0x8000_0000_0000_0000 {
                    Some(i64::MIN)
                } else {
                    None
                }
            } else if v <= 0x7fff_ffff_ffff_ffff {
                Some(v as i64)
            } else {
                None
            }
        },
        None => None,
    }
}

/// The frame that holds line text behind `tag`.
fn make_text_frame(tag: u8, text: &[u8]) -> (f: RespFrame)
    ensures
        f@ == crate::resp::grammar::text_frame(tag, text@),
{
    if tag == TAG_SIMPLE_STRING {
        RespFrame::SimpleString(SimpleString(slice_to_vec(text)))
    } else {
        RespFrame::Error(SimpleError(slice_to_vec(text)))
    }
}

/// The frame that holds a payload behind `tag`.
fn make_payload_frame(tag: u8, data: &[u8]) -> (f: RespFrame)
    ensures
        f@ == crate::resp::grammar::payload_frame(tag, data@),
{
    if tag == TAG_BULK_STRING {
        RespFrame::BulkString(BulkString(slice_to_vec(data)))
    } else if tag == TAG_BULK_ERROR {
        RespFrame::BulkError(BulkError(slice_to_vec(data)))
    } else {
        RespFrame::BigNumber(BigNumber(slice_to_vec(data)))
    }
}

impl LengthField {
    spec fn model(self) -> Length {
        match self {
            LengthField::Absent => Length::Absent,
            LengthField::Count(n) => Length::Count(n as nat),
            LengthField::Bad => Length::Bad,
        }
    }
}

/// Reads the one-line frame whose text is `buf[start..end]`.
fn decode_line_frame(buf: &[u8], start: usize, end: usize, tag: u8) -> (r: Option<RespFrame>)
    requires
        start <= end <= buf.len(),
        is_line_tag(tag),
    ensures
        match line_frame(tag, buf@.subrange(start as int, end as int)) {
            Some(frame) => r matches Some(f) && f@ == frame,
            None => r is None,
        },
{
    let ghost text = buf@.subrange(start as int, end as int);
    if tag == TAG_SIMPLE_STRING || tag == TAG_ERROR {
        let line = slice_subrange(buf, start, end);
        if is_utf8(line) {
            Some(make_text_frame(tag, line))
        } else {
            None
        }
    } else if tag == TAG_INTEGER {
        match read_integer(buf, start, end) {
            Some(n) => Some(RespFrame::Integer(n)),
            None => None,
        }
    } else if tag == TAG_NULL {
        if end == start {
            Some(RespFrame::Null(RespNull))
        } else {
            None
        }
    } else if tag == TAG_BOOLEAN {
        if end - start == 1 && buf[start] == 116 {
            assert(text =~= boolean_text(true));
            Some(RespFrame::Boolean(true))
        } else if end - start == 1 && buf[start] == 102 {
            assert(text =~= boolean_text(false));
            Some(RespFrame::Boolean(false))
        } else {
            proof {
                if text == boolean_text(true) || text == boolean_text(false) {
                    assert(text.len() == 1);
                    assert(text[0] == buf[start as int]);
                    assert(boolean_text(true)[0] == 116u8);
                    assert(boolean_text(false)[0] == 102u8);
                }
            }
            None
        }
    } else {
        let line = slice_subrange(buf, start, end);
        if is_double(line) {
            Some(RespFrame::Double(RespDouble(slice_to_vec(line))))
        } else {
            None
        }
    }
}

/// Reads the payload of `n` bytes that starts at `pos`, with its
/// terminator.
fn decode_payload(buf: &[u8], pos: usize, n: u64) -> (r: Result<(&[u8], usize), RespError>)
    requires
        pos <= buf.len(),
    ensures
        match parse_payload(buf@.skip(pos as int), n as nat) {
            Parsed::Complete { value, used } => r matches Ok((data, next)) && data@ == value
                && next == pos + used && next <= buf.len(),
            Parsed::Incomplete => r == Err::<(&[u8], usize), RespError>(RespError::NotComplete),
            Parsed::Invalid => r == Err::<(&[u8], usize), RespError>(RespError::InvalidFrame),
        },
{
    let remaining: usize = buf.len() - pos;
    if (remaining as u64) < 2 || (remaining as u64) - 2 < n {
        return Err(RespError::NotComplete);
    }
    let size: usize = n as usize;
    let stop: usize = pos + size;
    if buf[stop] == CR && buf[stop + 1] == LF {
        let data = slice_subrange(buf, pos, stop);
        assert(data@ =~= buf@.skip(pos as int).take(size as int));
        Ok((data, stop + 2))
    } else {
        Err(RespError::InvalidFrame)
    }
}

/// Whether `r` reports the outcome `p` of reading at index `at` of a
/// buffer: the frame with the index just behind it, or the matching
/// error.
pub open spec fn reports(r: Result<(RespFrame, usize), RespError>, p: Parsed<Frame>, at: int) -> bool {
    match p {
        Parsed::Complete { value, used } => r matches Ok((f, next)) && f@ == value && next == at
            + used,
        Parsed::Incomplete => r == Err::<(RespFrame, usize), RespError>(RespError::NotComplete),
        Parsed::Invalid => r == Err::<(RespFrame, usize), RespError>(RespError::InvalidFrame),
    }
}

/// Reads the header that starts at `pos`: its tag and the index at which
/// the text of its line ends.
fn read_header(buf: &[u8], pos: usize) -> (r: Result<(u8, usize), RespError>)
    requires
        pos <= buf.len(),
    ensures
        match parse_header(buf@.skip(pos as int)) {
            Parsed::Complete { value, used } => r matches Ok((tag, end)) && tag == value.0 && pos
                < end && end + 2 <= buf.len() && value.1 == buf@.subrange(pos + 1, end as int)
                && used == end + 2 - pos,
            Parsed::Incomplete => r == Err::<(u8, usize), RespError>(RespError::NotComplete),
            Parsed::Invalid => r == Err::<(u8, usize), RespError>(RespError::InvalidFrame),
        },
{
    let ghost s = buf@.skip(pos as int);
    if pos >= buf.len() {
        return Err(RespError::NotComplete);
    }
    let tag: u8 = buf[pos];
    assert(s[0] == tag);
    if !is_tag_byte(tag) {
        return Err(RespError::InvalidFrame);
    }
    assert(s.skip(1) =~= buf@.skip(pos + 1));
    match find_line(buf, pos + 1) {
        Ok(end) => Ok((tag, end)),
        Err(e) => Err(e),
    }
}

/// Reads the frame that starts at `pos`.
fn decode_at(buf: &[u8], pos: usize) -> (r: Result<(RespFrame, usize), RespError>)
    requires
        pos <= buf.len(),
    ensures
        reports(r, parse(buf@.skip(pos as int)), pos as int),
        r matches Ok((_, next)) ==> pos < next <= buf.len(),
    decreases buf.len() - pos, 0nat,
{
    let (tag, end) = match read_header(buf, pos) {
        Ok(header) => header,
        Err(e) => {
            return Err(e);
        },
    };
    let next: usize = end + 2;
    assert(buf@.skip(pos as int).skip(next - pos) =~= buf@.skip(next as int));
    if is_line_tag_byte(tag) {
        match decode_line_frame(buf, pos + 1, end, tag) {
            Some(frame) => Ok((frame, next)),
            None => Err(RespError::InvalidFrame),
        }
    } else {
        let length = read_length(buf, pos + 1, end);
        decode_body(buf, next, tag, length)
    }
}

/// Reads what follows the header of a frame with a length field, from
/// `pos` on.
fn decode_body(buf: &[u8], pos: usize, tag: u8, length: LengthField) -> (r: Result<
    (RespFrame, usize),
    RespError,
>)
    requires
        0 < pos <= buf.len(),
    ensures
        reports(r, parse_body(tag, length.model(), buf@.skip(pos as int)), pos as int),
        r matches Ok((_, next)) ==> pos <= next <= buf.len(),
    decreases buf.len() - pos, 3nat,
{
    match length {
        LengthField::Bad => Err(RespError::InvalidFrame),
        LengthField::Absent => {
            if tag == TAG_BULK_STRING {
                Ok((RespFrame::NullBulkString(RespNullBulkString), pos))
            } else if tag == TAG_ARRAY {
                Ok((RespFrame::NullArray(RespNullArray), pos))
            } else {
                Err(RespError::InvalidFrame)
            }
        },
        LengthField::Count(n) => {
            if tag == TAG_ARRAY || tag == TAG_SET {
                match decode_all(buf, pos, n) {
                    Ok((frames, after)) => {
                        if tag == TAG_ARRAY {
                            Ok((RespFrame::Array(RespArray(frames)), after))
                        } else {
                            Ok((RespFrame::Members(RespSet(frames)), after))
                        }
                    },
                    Err(e) => Err(e),
                }
            } else if tag == TAG_MAP {
                match decode_entries(buf, pos, n) {
                    Ok((map, after)) => Ok((RespFrame::Mapping(map), after)),
                    Err(e) => Err(e),
                }
            } else {
                match decode_payload(buf, pos, n) {
                    Ok((data, after)) => Ok((make_payload_frame(tag, data), after)),
                    Err(e) => Err(e),
                }
            }
        },
    }
}

/// Putting one more item behind those read so far, step by step, gives
/// the same outcome as putting it before those that follow.
proof fn lemma_prepend_step<T>(front: Seq<T>, before: nat, item: T, used: nat, tail: Parsed<Seq<T>>)
    ensures
        prepend(front, before, prepend(seq![item], used, tail)) == prepend(
            front.push(item),
            before + used,
            tail,
        ),
{
    if let Parsed::Complete { value, used: more } = tail {
        assert(front + (seq![item] + value) =~= front.push(item) + value);
    }
}

/// Nothing read so far and everything still to read is the whole.
proof fn lemma_prepend_nothing<T>(whole: Parsed<Seq<T>>)
    ensures
        prepend(Seq::<T>::empty(), 0, whole) == whole,
{
    if let Parsed::Complete { value, used } = whole {
        assert(Seq::<T>::empty() + value =~= value);
    }
}

/// Everything read and nothing still to read is complete.
proof fn lemma_prepend_all<T>(front: Seq<T>, before: nat)
    ensures
        prepend(front, before, Parsed::Complete { value: Seq::<T>::empty(), used: 0 }) == (
        Parsed::Complete { value: front, used: before }),
{
    assert(front + Seq::<T>::empty() =~= front);
}

/// Reads the `n` frames that start at `pos`.
fn decode_all(buf: &[u8], pos: usize, n: u64) -> (r: Result<(Vec<RespFrame>, usize), RespError>)
    requires
        pos <= buf.len(),
    ensures
        match parse_all(buf@.skip(pos as int), n as nat) {
            Parsed::Complete { value, used } => r matches Ok((frames, next)) && frames_view(
                &frames,
            ) == value && next == pos + used,
            Parsed::Incomplete => r == Err::<(Vec<RespFrame>, usize), RespError>(
                RespError::NotComplete,
            ),
            Parsed::Invalid => r == Err::<(Vec<RespFrame>, usize), RespError>(
                RespError::InvalidFrame,
            ),
        },
        r matches Ok((_, next)) ==> pos <= next <= buf.len(),
    decreases buf.len() - pos, 1nat,
{
    let ghost whole = parse_all(buf@.skip(pos as int), n as nat);
    let mut frames: Vec<RespFrame> = Vec::new();
    let mut at: usize = pos;
    let mut i: u64 = 0;
    proof {
        assert(frames_view(&frames) =~= Seq::<Frame>::empty());
        lemma_prepend_nothing(whole);
    }
    while i < n
        invariant
            pos <= at <= buf.len(),
            i <= n,
            whole == parse_all(buf@.skip(pos as int), n as nat),
            whole == prepend(
                frames_view(&frames),
                (at - pos) as nat,
                parse_all(buf@.skip(at as int), (n - i) as nat),
            ),
        decreases n - i,
    {
        let ghost here = buf@.skip(at as int);
        let ghost before = frames_view(&frames);
        match decode_at(buf, at) {
            Ok((frame, next)) => {
                proof {
                    let used = (next - at) as nat;
                    assert(here.skip(used as int) =~= buf@.skip(next as int));
                    lemma_prepend_step(
                        before,
                        (at - pos) as nat,
                        frame@,
                        used,
                        parse_all(buf@.skip(next as int), (n - i - 1) as nat),
                    );
                }
                frames.push(frame);
                assert(frames_view(&frames) =~= before.push(frame@));
                at = next;
                i += 1;
            },
            Err(e) => {
                return Err(e);
            },
        }
    }
    proof {
        lemma_prepend_all(frames_view(&frames), (at - pos) as nat);
    }
    Ok((frames, at))
}

/// Reads the map entry that starts at `pos`: its key, its value and the
/// index just behind it.
fn decode_entry(buf: &[u8], pos: usize) -> (r: Result<(Vec<u8>, RespFrame, usize), RespError>)
    requires
        pos <= buf.len(),
    ensures
        match parse_entry(buf@.skip(pos as int)) {
            Parsed::Complete { value, used } => r matches Ok((key, frame, next)) && key@ == value.0
                && frame@ == value.1 && next == pos + used,
            Parsed::Incomplete => r == Err::<(Vec<u8>, RespFrame, usize), RespError>(
                RespError::NotComplete,
            ),
            Parsed::Invalid => r == Err::<(Vec<u8>, RespFrame, usize), RespError>(
                RespError::InvalidFrame,
            ),
        },
        r matches Ok((_, _, next)) ==> pos < next <= buf.len(),
    decreases buf.len() - pos, 1nat,
{
    let ghost here = buf@.skip(pos as int);
    if pos < buf.len() && buf[pos] != TAG_SIMPLE_STRING {
        assert(here[0] == buf[pos as int]);
        return Err(RespError::InvalidFrame);
    }
    let (key, middle) = match decode_at(buf, pos) {
        Ok((RespFrame::SimpleString(key), middle)) => (key, middle),
        Ok(_) => {
            return Err(RespError::InvalidFrame);
        },
        Err(e) => {
            return Err(e);
        },
    };
    assert(here.skip(middle - pos) =~= buf@.skip(middle as int));
    match decode_at(buf, middle) {
        Ok((value, next)) => Ok((key.0, value, next)),
        Err(e) => Err(e),
    }
}

/// Reads the `n` map entries that start at `pos` and stores them, one
/// after the other, in a map.
fn decode_entries(buf: &[u8], pos: usize, n: u64) -> (r: Result<(RespMap, usize), RespError>)
    requires
        pos <= buf.len(),
    ensures
        match parse_entries(buf@.skip(pos as int), n as nat) {
            Parsed::Complete { value, used } => r matches Ok((map, next)) && map@ == collect(value)
                && next == pos + used,
            Parsed::Incomplete => r == Err::<(RespMap, usize), RespError>(RespError::NotComplete),
            Parsed::Invalid => r == Err::<(RespMap, usize), RespError>(RespError::InvalidFrame),
        },
        r matches Ok((_, next)) ==> pos <= next <= buf.len(),
    decreases buf.len() - pos, 2nat,
{
    let ghost whole = parse_entries(buf@.skip(pos as int), n as nat);
    let ghost mut pairs: Seq<(Seq<u8>, Frame)> = Seq::empty();
    let mut map: RespMap = RespMap::new();
    let mut at: usize = pos;
    let mut i: u64 = 0;
    proof {
        lemma_prepend_nothing(whole);
    }
    while i < n
        invariant
            pos <= at <= buf.len(),
            i <= n,
            map@ == collect(pairs),
            whole == parse_entries(buf@.skip(pos as int), n as nat),
            whole == prepend(
                pairs,
                (at - pos) as nat,
                parse_entries(buf@.skip(at as int), (n - i) as nat),
            ),
        decreases n - i,
    {
        let ghost here = buf@.skip(at as int);
        match decode_entry(buf, at) {
            Ok((key, value, next)) => {
                proof {
                    let used = (next - at) as nat;
                    let pair = (key@, value@);
                    assert(here.skip(used as int) =~= buf@.skip(next as int));
                    lemma_prepend_step(
                        pairs,
                        (at - pos) as nat,
                        pair,
                        used,
                        parse_entries(buf@.skip(next as int), (n - i - 1) as nat),
                    );
                    assert(pairs.push(pair).drop_last() =~= pairs);
                    pairs = pairs.push(pair);
                }
                map.insert(key, value);
                at = next;
                i += 1;
            },
            Err(e) => {
                return Err(e);
            },
        }
    }
    proof {
        lemma_prepend_all(pairs, (at - pos) as nat);
    }
    Ok((map, at))
}

impl RespFrame {
    /// Reads the frame at the front of `buf`.
    ///
    /// Hands back the frame with the number of bytes that it takes; or
    /// `NotComplete` where `buf` is the beginning of a frame; or
    /// `InvalidFrame` where no frame starts this way.
    pub fn decode_slice(buf: &[u8]) -> (r: Result<(RespFrame, usize), RespError>)
        ensures
            reports(r, parse(buf@), 0),
            r matches Ok((frame, used)) ==> frame@.wf() && 0 < used <= buf.len(),
    {
        assert(buf@.skip(0) =~= buf@);
        proof {
            lemma_parse_sound(buf@);
        }
        decode_at(buf, 0)
    }
}

} // verus!
