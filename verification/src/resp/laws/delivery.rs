//! A frame that has not arrived in full reads as incomplete.

use vstd::prelude::*;
use crate::resp::encode::{
    boolean_text, bulk, integer_text, line, minus_one, wire_all, wire_entries, wire_entry,
    TAG_ARRAY, TAG_BIG_NUMBER, TAG_BOOLEAN, TAG_BULK_ERROR, TAG_BULK_STRING, TAG_DOUBLE, TAG_ERROR,
    TAG_INTEGER, TAG_MAP, TAG_NULL, TAG_SET, TAG_SIMPLE_STRING,
};
use crate::resp::frame::{is_line_text, Frame};
use crate::resp::grammar::{
    behind_header, is_line_tag, is_tag, parse, parse_all, parse_body, parse_entries, parse_entry,
    parse_length, parse_payload, Parsed,
};
use crate::resp::laws::lines::{
    lemma_header, lemma_integer_round_trip, lemma_length_round_trip, lemma_line_incomplete,
    lemma_parse_behind_header, lemma_wire_all_front, lemma_wire_entries_front,
};
use crate::resp::laws::round_trip::{lemma_decode_encode, lemma_round_trip, lemma_round_trip_entry};
use crate::resp::text::{crlf, decimal, no_breaks};

verus! {

/// Fed byte by byte, a frame is incomplete until its last byte has
/// arrived: every strict prefix of the wire form of a well-formed frame
/// reads as incomplete.
pub proof fn lemma_prefix_incomplete(f: Frame, k: int)
    requires
        f.wf(),
        0 <= k < f.wire().len(),
    ensures
        parse(f.wire().take(k)) == Parsed::<Frame>::Incomplete,
    decreases f,
{
    match f {
        Frame::SimpleString(t) => lemma_line_prefix_incomplete(TAG_SIMPLE_STRING, t, k),
        Frame::Error(t) => lemma_line_prefix_incomplete(TAG_ERROR, t, k),
        Frame::Integer(n) => {
            lemma_integer_round_trip(n);
            lemma_line_prefix_incomplete(TAG_INTEGER, integer_text(n), k);
        },
        Frame::Null => lemma_line_prefix_incomplete(TAG_NULL, Seq::empty(), k),
        Frame::Boolean(b) => lemma_line_prefix_incomplete(TAG_BOOLEAN, boolean_text(b), k),
        Frame::Double(t) => lemma_line_prefix_incomplete(TAG_DOUBLE, t, k),
        Frame::NullBulkString => lemma_line_prefix_incomplete(TAG_BULK_STRING, minus_one(), k),
        Frame::NullArray => lemma_line_prefix_incomplete(TAG_ARRAY, minus_one(), k),
        Frame::BulkString(data) => lemma_payload_incomplete(TAG_BULK_STRING, data, k),
        Frame::BulkError(data) => lemma_payload_incomplete(TAG_BULK_ERROR, data, k),
        Frame::BigNumber(data) => lemma_payload_incomplete(TAG_BIG_NUMBER, data, k),
        Frame::Array(fs) => {
            let head = decimal(fs.len()).len() + 3;
            if k >= head {
                lemma_prefix_incomplete_all(fs, k - head);
            }
            lemma_sequence_prefix_incomplete(TAG_ARRAY, fs, k);
        },
        Frame::Members(fs) => {
            let head = decimal(fs.len()).len() + 3;
            if k >= head {
                lemma_prefix_incomplete_all(fs, k - head);
            }
            lemma_sequence_prefix_incomplete(TAG_SET, fs, k);
        },
        Frame::Mapping(es) => {
            let head = decimal(es.len()).len() + 3;
            if k >= head {
                lemma_prefix_incomplete_entries(es, k - head);
            }
            lemma_mapping_prefix_incomplete(es, k);
        },
    }
}

/// Delivered byte by byte, the wire form of a well-formed frame reads as
/// incomplete after every byte but the last, and as the frame, taking all
/// the bytes, after the last.
pub proof fn lemma_incremental_delivery(f: Frame, k: int)
    requires
        f.wf(),
        0 <= k <= f.wire().len(),
    ensures
        parse(f.wire().take(k)) == if k < f.wire().len() {
            Parsed::Incomplete
        } else {
            Parsed::Complete { value: f, used: f.wire().len() }
        },
{
    if k < f.wire().len() {
        lemma_prefix_incomplete(f, k);
    } else {
        lemma_decode_encode(f);
        assert(f.wire().take(k) =~= f.wire());
    }
}

/// While the header line of a frame has not arrived in full, the frame is
/// incomplete.
proof fn lemma_header_incomplete(tag: u8, text: Seq<u8>, body: Seq<u8>, k: int)
    requires
        no_breaks(text),
        is_tag(tag),
        0 <= k < text.len() + 3,
    ensures
        parse((line(tag, text) + body).take(k)) == Parsed::<Frame>::Incomplete,
{
    let s = (line(tag, text) + body).take(k);
    if k > 0 {
        assert(s[0] == tag);
        lemma_line_incomplete(text, k - 1);
        assert(s.skip(1) =~= (text + crlf()).take(k - 1));
    }
}

/// The first `k` bytes of a frame with a length field, its header line
/// among them, read as the beginning of its body reads.
proof fn lemma_prefix_behind_header(tag: u8, text: Seq<u8>, body: Seq<u8>, k: int)
    requires
        no_breaks(text),
        is_tag(tag),
        !is_line_tag(tag),
        text.len() + 3 <= k <= text.len() + 3 + body.len(),
    ensures
        parse((line(tag, text) + body).take(k)) == behind_header(
            line(tag, text).len(),
            parse_body(tag, parse_length(text), body.take(k - text.len() - 3)),
        ),
{
    let part = body.take(k - text.len() - 3);
    assert((line(tag, text) + body).take(k) =~= line(tag, text) + part);
    lemma_parse_behind_header(tag, text, part);
}

/// A strict prefix of a payload frame is incomplete.
proof fn lemma_payload_incomplete(tag: u8, data: Seq<u8>, k: int)
    requires
        data.len() <= u64::MAX,
        tag == TAG_BULK_STRING || tag == TAG_BULK_ERROR || tag == TAG_BIG_NUMBER,
        0 <= k < bulk(tag, data).len(),
    ensures
        parse(bulk(tag, data).take(k)) == Parsed::<Frame>::Incomplete,
{
    let text = decimal(data.len());
    let body = data + crlf();
    lemma_length_round_trip(data.len());
    assert(bulk(tag, data) =~= line(tag, text) + body);
    if k < text.len() + 3 {
        lemma_header_incomplete(tag, text, body, k);
    } else {
        lemma_prefix_behind_header(tag, text, body, k);
        assert(parse_payload(body.take(k - text.len() - 3), data.len()) == Parsed::<
            Seq<u8>,
        >::Incomplete);
    }
}

/// A strict prefix of a one-line frame is incomplete.
proof fn lemma_line_prefix_incomplete(tag: u8, text: Seq<u8>, k: int)
    requires
        no_breaks(text),
        is_tag(tag),
        0 <= k < line(tag, text).len(),
    ensures
        parse(line(tag, text).take(k)) == Parsed::<Frame>::Incomplete,
{
    assert(line(tag, text) =~= line(tag, text) + Seq::<u8>::empty());
    lemma_header_incomplete(tag, text, Seq::empty(), k);
}

/// A strict prefix of a sequence frame is incomplete where the part of
/// its elements that it holds is.
proof fn lemma_sequence_prefix_incomplete(tag: u8, fs: Seq<Frame>, k: int)
    requires
        tag == TAG_ARRAY || tag == TAG_SET,
        fs.len() <= u64::MAX,
        0 <= k < (line(tag, decimal(fs.len())) + wire_all(fs)).len(),
        k >= decimal(fs.len()).len() + 3 ==> parse_all(
            wire_all(fs).take(k - decimal(fs.len()).len() - 3),
            fs.len(),
        ) == Parsed::<Seq<Frame>>::Incomplete,
    ensures
        parse((line(tag, decimal(fs.len())) + wire_all(fs)).take(k)) == Parsed::<
            Frame,
        >::Incomplete,
{
    let text = decimal(fs.len());
    lemma_length_round_trip(fs.len());
    if k < text.len() + 3 {
        lemma_header_incomplete(tag, text, wire_all(fs), k);
    } else {
        lemma_prefix_behind_header(tag, text, wire_all(fs), k);
    }
}

/// A strict prefix of a map frame is incomplete where the part of its
/// entries that it holds is.
proof fn lemma_mapping_prefix_incomplete(es: Seq<(Seq<u8>, Frame)>, k: int)
    requires
        es.len() <= u64::MAX,
        0 <= k < (line(TAG_MAP, decimal(es.len())) + wire_entries(es)).len(),
        k >= decimal(es.len()).len() + 3 ==> parse_entries(
            wire_entries(es).take(k - decimal(es.len()).len() - 3),
            es.len(),
        ) == Parsed::<Seq<(Seq<u8>, Frame)>>::Incomplete,
    ensures
        parse((line(TAG_MAP, decimal(es.len())) + wire_entries(es)).take(k)) == Parsed::<
            Frame,
        >::Incomplete,
{
    let text = decimal(es.len());
    lemma_length_round_trip(es.len());
    if k < text.len() + 3 {
        lemma_header_incomplete(TAG_MAP, text, wire_entries(es), k);
    } else {
        lemma_prefix_behind_header(TAG_MAP, text, wire_entries(es), k);
    }
}

/// A strict prefix of the wire forms of well-formed frames does not hold
/// all of them.
proof fn lemma_prefix_incomplete_all(fs: Seq<Frame>, k: int)
    requires
        forall|i: int| 0 <= i < fs.len() ==> (#[trigger] fs[i]).wf(),
        0 <= k < wire_all(fs).len(),
    ensures
        parse_all(wire_all(fs).take(k), fs.len()) == Parsed::<Seq<Frame>>::Incomplete,
    decreases fs,
{
    let first = fs[0];
    let tail = fs.skip(1);
    let width = first.wire().len() as int;
    lemma_wire_all_front(fs);
    if k < width {
        assert(wire_all(fs).take(k) =~= first.wire().take(k));
        lemma_prefix_incomplete(first, k);
    } else {
        let behind = wire_all(tail).take(k - width);
        assert(wire_all(fs).take(k) =~= first.wire() + behind);
        lemma_round_trip(first, behind);
        assert((first.wire() + behind).skip(width) =~= behind);
        assert forall|i: int| 0 <= i < tail.len() implies (#[trigger] tail[i]).wf() by {
            assert(tail[i] == fs[i + 1]);
        }
        lemma_prefix_incomplete_all(tail, k - width);
    }
}

/// A strict prefix of the wire forms of well-formed map entries does not
/// hold all of them.
proof fn lemma_prefix_incomplete_entries(es: Seq<(Seq<u8>, Frame)>, k: int)
    requires
        forall|i: int| 0 <= i < es.len() ==> is_line_text((#[trigger] es[i]).0) && es[i].1.wf(),
        0 <= k < wire_entries(es).len(),
    ensures
        parse_entries(wire_entries(es).take(k), es.len()) == Parsed::<
            Seq<(Seq<u8>, Frame)>,
        >::Incomplete,
    decreases es,
{
    let first = es[0];
    let tail = es.skip(1);
    let width = wire_entry(first).len() as int;
    lemma_wire_entries_front(es);
    if k < width {
        assert(wire_entries(es).take(k) =~= wire_entry(first).take(k));
        lemma_prefix_incomplete_entry(first, k);
    } else {
        let behind = wire_entries(tail).take(k - width);
        assert(wire_entries(es).take(k) =~= wire_entry(first) + behind);
        lemma_round_trip_entry(first, behind);
        assert((wire_entry(first) + behind).skip(width) =~= behind);
        assert forall|i: int| 0 <= i < tail.len() implies is_line_text((#[trigger] tail[i]).0)
            && tail[i].1.wf() by {
            assert(tail[i] == es[i + 1]);
        }
        lemma_prefix_incomplete_entries(tail, k - width);
    }
}

/// A strict prefix of the wire form of a well-formed map entry is
/// incomplete.
proof fn lemma_prefix_incomplete_entry(e: (Seq<u8>, Frame), k: int)
    requires
        is_line_text(e.0),
        e.1.wf(),
        0 <= k < wire_entry(e).len(),
    ensures
        parse_entry(wire_entry(e).take(k)) == Parsed::<(Seq<u8>, Frame)>::Incomplete,
    decreases e,
{
    let key = Frame::SimpleString(e.0);
    let width = key.wire().len() as int;
    let s = wire_entry(e).take(k);
    if k < width {
        assert(s =~= key.wire().take(k));
        lemma_header_incomplete(TAG_SIMPLE_STRING, e.0, Seq::empty(), k);
        assert(key.wire() =~= line(TAG_SIMPLE_STRING, e.0) + Seq::<u8>::empty());
        if k > 0 {
            assert(s[0] == TAG_SIMPLE_STRING);
        }
    } else {
        let behind = e.1.wire().take(k - width);
        assert(s =~= key.wire() + behind);
        lemma_header(TAG_SIMPLE_STRING, e.0, behind);
        assert(s.skip(width) =~= behind);
        lemma_prefix_incomplete(e.1, k - width);
    }
}

} // verus!
