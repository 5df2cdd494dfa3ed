//! How lines and headers read: the ground that the laws stand on.

use vstd::prelude::*;
use crate::resp::double::is_sign;
use crate::resp::encode::{integer_text, line, minus_one, wire_all, wire_entries, wire_entry};
use crate::resp::frame::Frame;
use crate::resp::grammar::{
    behind_header, break_from, is_line_tag, is_tag, line_frame, parse, parse_body, parse_integer,
    parse_length, parse_line, Length, Parsed,
};
use crate::resp::text::{
    crlf, decimal, is_break, is_digit, lemma_decimal_round_trip, no_breaks, CR, LF, MINUS,
};

verus! {

/// The text of an integer has no line break and reads back as the integer.
pub proof fn lemma_integer_round_trip(n: i64)
    ensures
        no_breaks(integer_text(n)),
        parse_integer(integer_text(n)) == Some(n),
{
    let t = integer_text(n);
    let magnitude: nat = if n < 0 {
        (-n) as nat
    } else {
        n as nat
    };
    lemma_decimal_round_trip(magnitude);
    assert(is_sign(t[0]));
    assert(t.skip(1) =~= decimal(magnitude));
    assert forall|j: int| 0 <= j < t.len() implies !is_break(#[trigger] t[j]) by {
        if j > 0 {
            assert(t[j] == decimal(magnitude)[j - 1]);
        }
    }
}

/// The decimal text of a length that fits 64 bits has no line break and
/// reads back as that length.
pub proof fn lemma_length_round_trip(n: nat)
    requires
        n <= u64::MAX,
    ensures
        no_breaks(decimal(n)),
        parse_length(decimal(n)) == Length::Count(n),
{
    lemma_decimal_round_trip(n);
    assert(decimal(n) != minus_one()) by {
        assert(minus_one()[0] == MINUS);
        assert(is_digit(decimal(n)[0]));
    }
}

/// An index that holds a line break, or the end, behind bytes that hold
/// none, is where the scan for a line break stops.
pub(crate) proof fn lemma_break_from_unique(s: Seq<u8>, i: nat, k: nat)
    requires
        i <= k <= s.len(),
        forall|j: int| i <= j < k ==> !is_break(#[trigger] s[j]),
        k == s.len() || is_break(s[k as int]),
    ensures
        break_from(s, i) == k,
    decreases k - i,
{
    if i < k {
        lemma_break_from_unique(s, i + 1, k);
    }
}

/// A text without line breaks, its terminator and anything behind it read
/// as that line.
proof fn lemma_line_complete(text: Seq<u8>, rest: Seq<u8>)
    requires
        no_breaks(text),
    ensures
        parse_line(text + crlf() + rest) == (Parsed::Complete {
            value: text,
            used: text.len() + 2,
        }),
{
    let s = text + crlf() + rest;
    assert forall|j: int| 0 <= j < text.len() implies !is_break(#[trigger] s[j]) by {
        assert(s[j] == text[j]);
    }
    assert(s[text.len() as int] == CR);
    assert(s[text.len() as int + 1] == LF);
    lemma_break_from_unique(s, 0, text.len());
    assert(s.take(text.len() as int) =~= text);
}

/// A line that has not arrived in full is incomplete.
pub(crate) proof fn lemma_line_incomplete(text: Seq<u8>, k: int)
    requires
        no_breaks(text),
        0 <= k < text.len() + 2,
    ensures
        parse_line((text + crlf()).take(k)) == Parsed::<Seq<u8>>::Incomplete,
{
    let s = (text + crlf()).take(k);
    if k <= text.len() {
        assert forall|j: int| 0 <= j < k implies !is_break(#[trigger] s[j]) by {
            assert(s[j] == text[j]);
        }
        lemma_break_from_unique(s, 0, k as nat);
    } else {
        assert forall|j: int| 0 <= j < text.len() implies !is_break(#[trigger] s[j]) by {
            assert(s[j] == text[j]);
        }
        assert(s[text.len() as int] == CR);
        lemma_break_from_unique(s, 0, text.len());
    }
}

/// The frames of a sequence go out first frame first.
pub(crate) proof fn lemma_wire_all_front(fs: Seq<Frame>)
    requires
        fs.len() > 0,
    ensures
        wire_all(fs) == fs[0].wire() + wire_all(fs.skip(1)),
    decreases fs.len(),
{
    let init = fs.drop_last();
    if fs.len() == 1 {
        assert(init =~= Seq::<Frame>::empty());
        assert(fs.skip(1) =~= Seq::<Frame>::empty());
        assert(wire_all(fs) =~= fs[0].wire() + wire_all(fs.skip(1)));
    } else {
        lemma_wire_all_front(init);
        assert(fs.skip(1).drop_last() =~= init.skip(1));
        assert(fs.skip(1).last() == fs.last());
        assert(wire_all(fs) =~= fs[0].wire() + wire_all(fs.skip(1)));
    }
}

/// The entries of a map go out first entry first.
pub(crate) proof fn lemma_wire_entries_front(es: Seq<(Seq<u8>, Frame)>)
    requires
        es.len() > 0,
    ensures
        wire_entries(es) == wire_entry(es[0]) + wire_entries(es.skip(1)),
    decreases es.len(),
{
    let init = es.drop_last();
    if es.len() == 1 {
        assert(init =~= Seq::<(Seq<u8>, Frame)>::empty());
        assert(es.skip(1) =~= Seq::<(Seq<u8>, Frame)>::empty());
        assert(wire_entries(es) =~= wire_entry(es[0]) + wire_entries(es.skip(1)));
    } else {
        lemma_wire_entries_front(init);
        assert(es.skip(1).drop_last() =~= init.skip(1));
        assert(es.skip(1).last() == es.last());
        assert(wire_entries(es) =~= wire_entry(es[0]) + wire_entries(es.skip(1)));
    }
}

/// The header line of a frame reads as its text, and what follows the
/// header is what was put behind it.
pub(crate) proof fn lemma_header(tag: u8, text: Seq<u8>, rest: Seq<u8>)
    requires
        no_breaks(text),
    ensures
        (line(tag, text) + rest)[0] == tag,
        parse_line((line(tag, text) + rest).skip(1)) == (Parsed::Complete {
            value: text,
            used: text.len() + 2,
        }),
        (line(tag, text) + rest).skip(text.len() as int + 3) == rest,
        line(tag, text).len() == text.len() + 3,
{
    let s = line(tag, text) + rest;
    lemma_line_complete(text, rest);
    assert(s.skip(1) =~= text + crlf() + rest);
    assert(s.skip(text.len() as int + 3) =~= rest);
}

/// A one-line frame reads as what its text stands for.
pub(crate) proof fn lemma_parse_line_frame(tag: u8, text: Seq<u8>, rest: Seq<u8>)
    requires
        no_breaks(text),
        is_line_tag(tag),
    ensures
        parse(line(tag, text) + rest) == match line_frame(tag, text) {
            Some(frame) => Parsed::Complete { value: frame, used: line(tag, text).len() },
            None => Parsed::Invalid,
        },
{
    lemma_header(tag, text, rest);
}

/// A frame with a length field reads as what follows its header reads.
pub(crate) proof fn lemma_parse_behind_header(tag: u8, text: Seq<u8>, rest: Seq<u8>)
    requires
        no_breaks(text),
        is_tag(tag),
        !is_line_tag(tag),
    ensures
        parse(line(tag, text) + rest) == behind_header(
            line(tag, text).len(),
            parse_body(tag, parse_length(text), rest),
        ),
{
    lemma_header(tag, text, rest);
}

/// The scan for a line break stops within the bytes, behind bytes that
/// hold none, at a line break or at the end.
pub(crate) proof fn lemma_break_from(s: Seq<u8>, i: nat)
    requires
        i <= s.len(),
    ensures
        i <= break_from(s, i) <= s.len(),
        forall|j: int| i <= j < break_from(s, i) ==> !is_break(#[trigger] s[j]),
        break_from(s, i) < s.len() ==> is_break(s[break_from(s, i) as int]),
    decreases s.len() - i,
{
    if i < s.len() && !is_break(s[i as int]) {
        lemma_break_from(s, i + 1);
    }
}

/// A line that was read has no line break in it and lies within the
/// bytes.
pub(crate) proof fn lemma_line_sound(s: Seq<u8>)
    ensures
        parse_line(s) matches Parsed::Complete { value, used } ==> no_breaks(value) && used
            == value.len() + 2 && used <= s.len(),
{
    lemma_break_from(s, 0);
}

} // verus!
