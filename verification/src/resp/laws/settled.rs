//! Verdicts that more bytes cannot change, and map entries whose order of
//! arrival does not show.

use vstd::prelude::*;
use crate::resp::encode::{TAG_ARRAY, TAG_MAP, TAG_SET};
use crate::resp::frame::Frame;
use crate::resp::grammar::{
    break_from, is_line_tag, is_tag, parse, parse_all, parse_body, parse_entries, parse_entry,
    parse_length, parse_line, parse_payload, Length, Parsed,
};
use crate::resp::laws::lines::{lemma_break_from, lemma_break_from_unique, lemma_line_sound};
use crate::resp::laws::sound::{lemma_parse_entry_sound, lemma_parse_sound};
use crate::resp::order::{keys_ascending, lemma_put_ascending, lemma_put_commutes, put};
use crate::resp::text::is_break;

verus! {

/// Whether the outcome `after`, of reading with more bytes at hand, keeps
/// what the outcome `before` had settled: a complete item stays as it
/// was, an invalid one stays invalid.
pub open spec fn keeps<T>(before: Parsed<T>, after: Parsed<T>) -> bool {
    before is Incomplete || after == before
}

/// Once the bytes at hand have been judged to be a frame, or to be none,
/// more bytes behind them change nothing: the same frame is read, taking
/// the same bytes, and what was invalid stays invalid.
pub proof fn lemma_verdict_settled(s: Seq<u8>, more: Seq<u8>)
    ensures
        keeps(parse(s), parse(s + more)),
    decreases s.len(), 0nat, 0nat,
{
    if s.len() > 0 {
        assert((s + more)[0] == s[0]);
        if is_tag(s[0]) {
            assert((s + more).skip(1) =~= s.skip(1) + more);
            lemma_line_settled(s.skip(1), more);
            lemma_line_sound(s.skip(1));
            if let Parsed::Complete { value: text, used } = parse_line(s.skip(1)) {
                let head = used + 1;
                assert((s + more).skip(head as int) =~= s.skip(head as int) + more);
                if !is_line_tag(s[0]) {
                    lemma_body_settled(s[0], parse_length(text), s.skip(head as int), more);
                }
            }
        }
    }
}

/// The order in which two different keys are put into a map does not show
/// on the wire: either way the map is the same, its keys ascend, and so
/// its wire form is the same.
pub proof fn lemma_insertion_order(
    es: Seq<(Seq<u8>, Frame)>,
    key1: Seq<u8>,
    value1: Frame,
    key2: Seq<u8>,
    value2: Frame,
)
    requires
        keys_ascending(es),
        key1 != key2,
    ensures
        put(put(es, key1, value1), key2, value2) == put(put(es, key2, value2), key1, value1),
        keys_ascending(put(put(es, key1, value1), key2, value2)),
        Frame::Mapping(put(put(es, key1, value1), key2, value2)).wire() == Frame::Mapping(
            put(put(es, key2, value2), key1, value1),
        ).wire(),
{
    lemma_put_commutes(es, key1, value1, key2, value2);
    lemma_put_ascending(es, key1, value1);
    lemma_put_ascending(put(es, key1, value1), key2, value2);
}

/// More bytes behind a line that was judged leave the judgement as it is.
proof fn lemma_line_settled(s: Seq<u8>, more: Seq<u8>)
    ensures
        keeps(parse_line(s), parse_line(s + more)),
{
    lemma_break_from(s, 0);
    let end = break_from(s, 0);
    if end < s.len() {
        assert forall|j: int| 0 <= j < end implies !is_break(#[trigger] (s + more)[j]) by {
            assert((s + more)[j] == s[j]);
        }
        assert((s + more)[end as int] == s[end as int]);
        lemma_break_from_unique(s + more, 0, end);
        if end + 1 < s.len() {
            assert((s + more)[end as int + 1] == s[end as int + 1]);
            assert((s + more).take(end as int) =~= s.take(end as int));
        }
    }
}

/// More bytes behind a payload that was judged leave the judgement as it
/// is.
proof fn lemma_payload_settled(s: Seq<u8>, n: nat, more: Seq<u8>)
    ensures
        keeps(parse_payload(s, n), parse_payload(s + more, n)),
{
    if s.len() >= n + 2 {
        assert((s + more)[n as int] == s[n as int]);
        assert((s + more)[n as int + 1] == s[n as int + 1]);
        assert((s + more).take(n as int) =~= s.take(n as int));
    }
}

/// More bytes behind the body of a frame that was judged leave the
/// judgement as it is.
proof fn lemma_body_settled(tag: u8, length: Length, rest: Seq<u8>, more: Seq<u8>)
    ensures
        keeps(parse_body(tag, length, rest), parse_body(tag, length, rest + more)),
    decreases rest.len(), 2nat, 0nat,
{
    if let Length::Count(n) = length {
        if tag == TAG_ARRAY || tag == TAG_SET {
            lemma_all_settled(rest, n, more);
        } else if tag == TAG_MAP {
            lemma_entries_settled(rest, n, more);
        } else {
            lemma_payload_settled(rest, n, more);
        }
    }
}

/// More bytes behind frames that were judged leave the judgement as it
/// is.
proof fn lemma_all_settled(s: Seq<u8>, n: nat, more: Seq<u8>)
    ensures
        keeps(parse_all(s, n), parse_all(s + more, n)),
    decreases s.len(), 1nat, n,
{
    if n > 0 {
        lemma_verdict_settled(s, more);
        lemma_parse_sound(s);
        if let Parsed::Complete { value, used } = parse(s) {
            assert((s + more).skip(used as int) =~= s.skip(used as int) + more);
            lemma_all_settled(s.skip(used as int), (n - 1) as nat, more);
        }
    }
}

/// More bytes behind a map entry that was judged leave the judgement as
/// it is.
proof fn lemma_entry_settled(s: Seq<u8>, more: Seq<u8>)
    ensures
        keeps(parse_entry(s), parse_entry(s + more)),
    decreases s.len(), 0nat, 1nat,
{
    if s.len() > 0 {
        assert((s + more)[0] == s[0]);
        lemma_verdict_settled(s, more);
        lemma_parse_sound(s);
        if let Parsed::Complete { value, used } = parse(s) {
            assert((s + more).skip(used as int) =~= s.skip(used as int) + more);
            lemma_verdict_settled(s.skip(used as int), more);
        }
    }
}

/// More bytes behind map entries that were judged leave the judgement as
/// it is.
proof fn lemma_entries_settled(s: Seq<u8>, n: nat, more: Seq<u8>)
    ensures
        keeps(parse_entries(s, n), parse_entries(s + more, n)),
    decreases s.len(), 1nat, n,
{
    if n > 0 {
        lemma_entry_settled(s, more);
        lemma_parse_entry_sound(s);
        if let Parsed::Complete { value, used } = parse_entry(s) {
            assert((s + more).skip(used as int) =~= s.skip(used as int) + more);
            lemma_entries_settled(s.skip(used as int), (n - 1) as nat, more);
        }
    }
}

} // verus!
