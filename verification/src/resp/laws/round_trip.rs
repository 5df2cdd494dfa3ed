//! Decoding undoes encoding.

use vstd::prelude::*;
use crate::resp::double::is_double_text;
use crate::resp::encode::{
    boolean_text, bulk, integer_text, line, minus_one, wire_all, wire_entries, wire_entry,
    TAG_ARRAY, TAG_BIG_NUMBER, TAG_BOOLEAN, TAG_BULK_ERROR, TAG_BULK_STRING, TAG_DOUBLE, TAG_ERROR,
    TAG_INTEGER, TAG_MAP, TAG_NULL, TAG_SET, TAG_SIMPLE_STRING,
};
use crate::resp::frame::{is_line_text, Frame};
use crate::resp::grammar::{
    collect, parse, parse_all, parse_entries, parse_entry, parse_length, parse_payload,
    payload_frame, sequence_frame, text_frame, Length, Parsed,
};
use crate::resp::laws::lines::{
    lemma_header, lemma_integer_round_trip, lemma_length_round_trip, lemma_parse_behind_header,
    lemma_parse_line_frame, lemma_wire_all_front, lemma_wire_entries_front,
};
use crate::resp::order::{keys_ascending, lemma_put_last, lex_lt};
use crate::resp::text::{crlf, decimal, no_breaks, CR, LF};

verus! {

/// Decoding undoes encoding: the wire form of a well-formed frame, with
/// anything behind it, reads as that frame and takes exactly the bytes of
/// the wire form.
pub proof fn lemma_round_trip(f: Frame, rest: Seq<u8>)
    requires
        f.wf(),
    ensures
        parse(f.wire() + rest) == (Parsed::Complete { value: f, used: f.wire().len() }),
    decreases f,
{
    match f {
        Frame::SimpleString(t) => lemma_text_round_trip(TAG_SIMPLE_STRING, t, rest),
        Frame::Error(t) => lemma_text_round_trip(TAG_ERROR, t, rest),
        Frame::Integer(n) => lemma_integer_frame_round_trip(n, rest),
        Frame::Null => lemma_null_round_trip(rest),
        Frame::Boolean(b) => lemma_boolean_round_trip(b, rest),
        Frame::Double(t) => lemma_double_round_trip(t, rest),
        Frame::NullBulkString => lemma_absent_round_trip(TAG_BULK_STRING, rest),
        Frame::NullArray => lemma_absent_round_trip(TAG_ARRAY, rest),
        Frame::BulkString(data) => lemma_payload_round_trip(TAG_BULK_STRING, data, rest),
        Frame::BulkError(data) => lemma_payload_round_trip(TAG_BULK_ERROR, data, rest),
        Frame::BigNumber(data) => lemma_payload_round_trip(TAG_BIG_NUMBER, data, rest),
        Frame::Array(fs) => {
            lemma_round_trip_all(fs, rest);
            lemma_sequence_round_trip(TAG_ARRAY, fs, rest);
        },
        Frame::Members(fs) => {
            lemma_round_trip_all(fs, rest);
            lemma_sequence_round_trip(TAG_SET, fs, rest);
        },
        Frame::Mapping(es) => {
            lemma_round_trip_entries(es, rest);
            lemma_collect_ascending(es);
            lemma_mapping_round_trip(es, rest);
        },
    }
}

/// The wire forms of well-formed frames, one behind the other, read as
/// those frames.
pub proof fn lemma_round_trip_all(fs: Seq<Frame>, rest: Seq<u8>)
    requires
        forall|i: int| 0 <= i < fs.len() ==> (#[trigger] fs[i]).wf(),
    ensures
        parse_all(wire_all(fs) + rest, fs.len()) == (Parsed::Complete {
            value: fs,
            used: wire_all(fs).len(),
        }),
    decreases fs,
{
    if fs.len() == 0 {
        assert(fs =~= Seq::<Frame>::empty());
    } else {
        let first = fs[0];
        let tail = fs.skip(1);
        let behind = wire_all(tail) + rest;
        lemma_wire_all_front(fs);
        assert(wire_all(fs) + rest =~= first.wire() + behind);
        lemma_round_trip(first, behind);
        assert((first.wire() + behind).skip(first.wire().len() as int) =~= behind);
        assert forall|i: int| 0 <= i < tail.len() implies (#[trigger] tail[i]).wf() by {
            assert(tail[i] == fs[i + 1]);
        }
        lemma_round_trip_all(tail, rest);
        assert(seq![first] + tail =~= fs);
    }
}

/// The wire form of a well-formed frame, with nothing behind it, reads as
/// that frame and nothing is left over.
pub proof fn lemma_decode_encode(f: Frame)
    requires
        f.wf(),
    ensures
        parse(f.wire()) == (Parsed::Complete { value: f, used: f.wire().len() }),
{
    lemma_round_trip(f, Seq::empty());
    assert(f.wire() + Seq::<u8>::empty() =~= f.wire());
}

/// Entries whose keys ascend make, stored one after the other, the map
/// that lists them in that order.
proof fn lemma_collect_ascending(es: Seq<(Seq<u8>, Frame)>)
    requires
        keys_ascending(es),
    ensures
        collect(es) == es,
    decreases es.len(),
{
    if es.len() == 0 {
        assert(es =~= Seq::<(Seq<u8>, Frame)>::empty());
    } else {
        let init = es.drop_last();
        assert(keys_ascending(init)) by {
            assert forall|i: int, j: int| 0 <= i < j < init.len() implies lex_lt(
                #[trigger] init[i].0,
                #[trigger] init[j].0,
            ) by {
                assert(init[i] == es[i] && init[j] == es[j]);
            }
        }
        lemma_collect_ascending(init);
        assert forall|i: int| 0 <= i < init.len() implies lex_lt(
            #[trigger] init[i].0,
            es.last().0,
        ) by {
            assert(init[i] == es[i]);
        }
        lemma_put_last(init, es.last().0, es.last().1);
        assert(init.push(es.last()) =~= es);
    }
}

proof fn lemma_text_round_trip(tag: u8, t: Seq<u8>, rest: Seq<u8>)
    requires
        tag == TAG_SIMPLE_STRING || tag == TAG_ERROR,
        is_line_text(t),
    ensures
        parse(line(tag, t) + rest) == (Parsed::Complete {
            value: text_frame(tag, t),
            used: line(tag, t).len(),
        }),
{
    lemma_parse_line_frame(tag, t, rest);
}

proof fn lemma_integer_frame_round_trip(n: i64, rest: Seq<u8>)
    ensures
        parse(Frame::Integer(n).wire() + rest) == (Parsed::Complete {
            value: Frame::Integer(n),
            used: Frame::Integer(n).wire().len(),
        }),
{
    lemma_integer_round_trip(n);
    lemma_parse_line_frame(TAG_INTEGER, integer_text(n), rest);
}

proof fn lemma_null_round_trip(rest: Seq<u8>)
    ensures
        parse(Frame::Null.wire() + rest) == (Parsed::Complete {
            value: Frame::Null,
            used: Frame::Null.wire().len(),
        }),
{
    lemma_parse_line_frame(TAG_NULL, Seq::empty(), rest);
}

proof fn lemma_boolean_round_trip(b: bool, rest: Seq<u8>)
    ensures
        parse(Frame::Boolean(b).wire() + rest) == (Parsed::Complete {
            value: Frame::Boolean(b),
            used: Frame::Boolean(b).wire().len(),
        }),
{
    assert(boolean_text(true)[0] != boolean_text(false)[0]);
    lemma_parse_line_frame(TAG_BOOLEAN, boolean_text(b), rest);
}

proof fn lemma_double_round_trip(t: Seq<u8>, rest: Seq<u8>)
    requires
        no_breaks(t),
        is_double_text(t),
    ensures
        parse(Frame::Double(t).wire() + rest) == (Parsed::Complete {
            value: Frame::Double(t),
            used: Frame::Double(t).wire().len(),
        }),
{
    lemma_parse_line_frame(TAG_DOUBLE, t, rest);
}

proof fn lemma_absent_round_trip(tag: u8, rest: Seq<u8>)
    requires
        tag == TAG_BULK_STRING || tag == TAG_ARRAY,
    ensures
        parse(line(tag, minus_one()) + rest) == (Parsed::Complete {
            value: if tag == TAG_BULK_STRING {
                Frame::NullBulkString
            } else {
                Frame::NullArray
            },
            used: line(tag, minus_one()).len(),
        }),
{
    lemma_parse_behind_header(tag, minus_one(), rest);
}

/// A header that announces `fs.len()` elements, with bytes behind it that
/// read as the elements `fs`, reads as the sequence frame of `fs`.
proof fn lemma_sequence_reads(tag: u8, text: Seq<u8>, fs: Seq<Frame>, body: Seq<u8>, used: nat)
    requires
        tag == TAG_ARRAY || tag == TAG_SET,
        no_breaks(text),
        parse_length(text) == Length::Count(fs.len()),
        parse_all(body, fs.len()) == (Parsed::Complete { value: fs, used }),
    ensures
        parse(line(tag, text) + body) == (Parsed::Complete {
            value: sequence_frame(tag, fs),
            used: text.len() + 3 + used,
        }),
{
    lemma_parse_behind_header(tag, text, body);
}

/// A sequence frame reads as its elements read.
proof fn lemma_sequence_round_trip(tag: u8, fs: Seq<Frame>, rest: Seq<u8>)
    requires
        tag == TAG_ARRAY || tag == TAG_SET,
        fs.len() <= u64::MAX,
        parse_all(wire_all(fs) + rest, fs.len()) == (Parsed::Complete {
            value: fs,
            used: wire_all(fs).len(),
        }),
    ensures
        parse(line(tag, decimal(fs.len())) + wire_all(fs) + rest) == (Parsed::Complete {
            value: sequence_frame(tag, fs),
            used: (line(tag, decimal(fs.len())) + wire_all(fs)).len(),
        }),
{
    let text = decimal(fs.len());
    lemma_length_round_trip(fs.len());
    lemma_sequence_reads(tag, text, fs, wire_all(fs) + rest, wire_all(fs).len());
    assert(line(tag, text) + wire_all(fs) + rest =~= line(tag, text) + (wire_all(fs) + rest));
}

/// A header that announces `es.len()` entries, with bytes behind it that
/// read as the entries `es`, reads as the map that the entries make.
proof fn lemma_mapping_reads(text: Seq<u8>, es: Seq<(Seq<u8>, Frame)>, body: Seq<u8>, used: nat)
    requires
        no_breaks(text),
        parse_length(text) == Length::Count(es.len()),
        parse_entries(body, es.len()) == (Parsed::Complete { value: es, used }),
    ensures
        parse(line(TAG_MAP, text) + body) == (Parsed::Complete {
            value: Frame::Mapping(collect(es)),
            used: text.len() + 3 + used,
        }),
{
    lemma_parse_behind_header(TAG_MAP, text, body);
}

/// A map frame reads as its entries read.
proof fn lemma_mapping_round_trip(es: Seq<(Seq<u8>, Frame)>, rest: Seq<u8>)
    requires
        es.len() <= u64::MAX,
        collect(es) == es,
        parse_entries(wire_entries(es) + rest, es.len()) == (Parsed::Complete {
            value: es,
            used: wire_entries(es).len(),
        }),
    ensures
        parse(Frame::Mapping(es).wire() + rest) == (Parsed::Complete {
            value: Frame::Mapping(es),
            used: Frame::Mapping(es).wire().len(),
        }),
{
    let text = decimal(es.len());
    lemma_length_round_trip(es.len());
    lemma_mapping_reads(text, es, wire_entries(es) + rest, wire_entries(es).len());
    assert(Frame::Mapping(es).wire() + rest =~= line(TAG_MAP, text) + (wire_entries(es) + rest));
}

/// A payload, its terminator and anything behind them read as that
/// payload.
proof fn lemma_payload_complete(data: Seq<u8>, rest: Seq<u8>)
    ensures
        parse_payload(data + crlf() + rest, data.len()) == (Parsed::Complete {
            value: data,
            used: data.len() + 2,
        }),
{
    let body = data + crlf() + rest;
    assert(body[data.len() as int] == CR);
    assert(body[data.len() as int + 1] == LF);
    assert(body.take(data.len() as int) =~= data);
}

/// A payload frame with something behind it is its header line with the
/// payload, the terminator and that something behind it.
proof fn lemma_bulk_shape(tag: u8, data: Seq<u8>, rest: Seq<u8>)
    ensures
        bulk(tag, data) + rest == line(tag, decimal(data.len())) + (data + crlf() + rest),
        bulk(tag, data).len() == line(tag, decimal(data.len())).len() + data.len() + 2,
{
    assert(bulk(tag, data) + rest =~= line(tag, decimal(data.len())) + (data + crlf() + rest));
}

/// A header that announces `data.len()` bytes, with the payload `data`
/// and its terminator behind it, reads as the payload frame of `data`.
proof fn lemma_payload_reads(tag: u8, text: Seq<u8>, data: Seq<u8>, rest: Seq<u8>)
    requires
        tag == TAG_BULK_STRING || tag == TAG_BULK_ERROR || tag == TAG_BIG_NUMBER,
        no_breaks(text),
        parse_length(text) == Length::Count(data.len()),
    ensures
        parse(line(tag, text) + (data + crlf() + rest)) == (Parsed::Complete {
            value: payload_frame(tag, data),
            used: text.len() + 3 + data.len() + 2,
        }),
{
    lemma_parse_behind_header(tag, text, data + crlf() + rest);
    lemma_payload_complete(data, rest);
}

/// A payload behind its length reads as that payload.
proof fn lemma_payload_round_trip(tag: u8, data: Seq<u8>, rest: Seq<u8>)
    requires
        data.len() <= u64::MAX,
        tag == TAG_BULK_STRING || tag == TAG_BULK_ERROR || tag == TAG_BIG_NUMBER,
    ensures
        parse(bulk(tag, data) + rest) == (Parsed::Complete {
            value: payload_frame(tag, data),
            used: bulk(tag, data).len(),
        }),
{
    lemma_length_round_trip(data.len());
    lemma_payload_reads(tag, decimal(data.len()), data, rest);
    lemma_bulk_shape(tag, data, rest);
}

/// The wire forms of well-formed map entries, one behind the other, read
/// as those entries.
proof fn lemma_round_trip_entries(es: Seq<(Seq<u8>, Frame)>, rest: Seq<u8>)
    requires
        forall|i: int| 0 <= i < es.len() ==> is_line_text((#[trigger] es[i]).0) && es[i].1.wf(),
    ensures
        parse_entries(wire_entries(es) + rest, es.len()) == (Parsed::Complete {
            value: es,
            used: wire_entries(es).len(),
        }),
    decreases es,
{
    if es.len() == 0 {
        assert(es =~= Seq::<(Seq<u8>, Frame)>::empty());
    } else {
        let first = es[0];
        let tail = es.skip(1);
        let behind = wire_entries(tail) + rest;
        lemma_wire_entries_front(es);
        assert(wire_entries(es) + rest =~= wire_entry(first) + behind);
        lemma_round_trip_entry(first, behind);
        assert((wire_entry(first) + behind).skip(wire_entry(first).len() as int) =~= behind);
        assert forall|i: int| 0 <= i < tail.len() implies is_line_text((#[trigger] tail[i]).0)
            && tail[i].1.wf() by {
            assert(tail[i] == es[i + 1]);
        }
        lemma_round_trip_entries(tail, rest);
        assert(seq![first] + tail =~= es);
    }
}

/// The wire form of a well-formed map entry reads as that entry.
pub(crate) proof fn lemma_round_trip_entry(e: (Seq<u8>, Frame), rest: Seq<u8>)
    requires
        is_line_text(e.0),
        e.1.wf(),
    ensures
        parse_entry(wire_entry(e) + rest) == (Parsed::Complete {
            value: e,
            used: wire_entry(e).len(),
        }),
    decreases e,
{
    let key = Frame::SimpleString(e.0);
    let behind = e.1.wire() + rest;
    let s = wire_entry(e) + rest;
    assert(s =~= key.wire() + behind);
    lemma_header(TAG_SIMPLE_STRING, e.0, behind);
    assert(parse(key.wire() + behind) == Parsed::Complete { value: key, used: key.wire().len() });
    assert(s.skip(key.wire().len() as int) =~= behind);
    lemma_round_trip(e.1, rest);
}

} // verus!
