//! What the grammar reads is well formed and lies within the bytes.

use vstd::prelude::*;
use crate::resp::encode::{TAG_ARRAY, TAG_MAP, TAG_SET};
use crate::resp::frame::{is_line_text, Frame};
use crate::resp::grammar::{
    collect, is_tag, parse, parse_all, parse_entries, parse_entry, parse_length, parse_line,
    Length, Parsed,
};
use crate::resp::laws::lines::lemma_line_sound;
use crate::resp::order::{has_key, keys_ascending, lemma_put_ascending, lemma_slot_from, slot};

verus! {

/// A byte that is no tag starts no frame.
pub proof fn lemma_unknown_tag_invalid(s: Seq<u8>)
    requires
        s.len() > 0,
        !is_tag(s[0]),
    ensures
        parse(s) == Parsed::<Frame>::Invalid,
{
}

/// What the grammar reads is well formed and lies within the bytes: a
/// frame that was read is one that the wire format carries faithfully, and
/// it takes at least one byte and no more than there are.
pub proof fn lemma_parse_sound(s: Seq<u8>)
    ensures
        parse(s) matches Parsed::Complete { value, used } ==> value.wf() && 0 < used <= s.len(),
    decreases s.len(), 0nat,
{
    if s.len() > 0 && is_tag(s[0]) {
        lemma_line_sound(s.skip(1));
        if let Parsed::Complete { value: text, used } = parse_line(s.skip(1)) {
            let tag = s[0];
            let head = used + 1;
            let rest = s.skip(head as int);
            if tag == TAG_ARRAY || tag == TAG_SET {
                if let Length::Count(n) = parse_length(text) {
                    lemma_parse_all_sound(rest, n);
                }
            } else if tag == TAG_MAP {
                if let Length::Count(n) = parse_length(text) {
                    lemma_parse_entries_sound(rest, n);
                    if let Parsed::Complete { value: es, used: more } = parse_entries(rest, n) {
                        lemma_collect_sound(es);
                    }
                }
            }
        }
    }
}

/// Storing entries one after the other gives ascending keys, and nothing
/// that was not among the entries.
proof fn lemma_collect_sound(es: Seq<(Seq<u8>, Frame)>)
    requires
        forall|i: int| 0 <= i < es.len() ==> is_line_text((#[trigger] es[i]).0) && es[i].1.wf(),
    ensures
        keys_ascending(collect(es)),
        collect(es).len() <= es.len(),
        forall|i: int|
            0 <= i < collect(es).len() ==> is_line_text((#[trigger] collect(es)[i]).0)
                && collect(es)[i].1.wf(),
    decreases es.len(),
{
    if es.len() > 0 {
        let init = es.drop_last();
        let before = collect(init);
        assert forall|i: int| 0 <= i < init.len() implies is_line_text((#[trigger] init[i]).0)
            && init[i].1.wf() by {
            assert(init[i] == es[i]);
        }
        lemma_collect_sound(init);
        lemma_put_ascending(before, es.last().0, es.last().1);
        lemma_slot_from(before, es.last().0, 0);
        let at = slot(before, es.last().0);
        let after = collect(es);
        assert forall|i: int| 0 <= i < after.len() implies is_line_text((#[trigger] after[i]).0)
            && after[i].1.wf() by {
            if i == at {
                assert(after[i] == es.last());
            } else if has_key(before, es.last().0) {
                assert(after[i] == before[i]);
            } else if i < at {
                assert(after[i] == before[i]);
            } else {
                assert(after[i] == before[i - 1]);
            }
        }
    }
}

/// The frames that the grammar reads in a row are as many as were asked
/// for, each well formed, and lie within the bytes.
proof fn lemma_parse_all_sound(s: Seq<u8>, n: nat)
    ensures
        parse_all(s, n) matches Parsed::Complete { value, used } ==> value.len() == n && used
            <= s.len() && forall|i: int| 0 <= i < value.len() ==> (#[trigger] value[i]).wf(),
    decreases s.len(), n + 1,
{
    if n > 0 {
        lemma_parse_sound(s);
        if let Parsed::Complete { value: first, used } = parse(s) {
            lemma_parse_all_sound(s.skip(used as int), (n - 1) as nat);
            if let Parsed::Complete { value: tail, used: more } = parse_all(
                s.skip(used as int),
                (n - 1) as nat,
            ) {
                let all = seq![first] + tail;
                assert forall|i: int| 0 <= i < all.len() implies (#[trigger] all[i]).wf() by {
                    if i > 0 {
                        assert(all[i] == tail[i - 1]);
                    }
                }
            }
        }
    }
}

/// A map entry that the grammar reads has line text for its key and a
/// well-formed frame for its value, and lies within the bytes.
pub(crate) proof fn lemma_parse_entry_sound(s: Seq<u8>)
    ensures
        parse_entry(s) matches Parsed::Complete { value, used } ==> is_line_text(value.0)
            && value.1.wf() && 0 < used <= s.len(),
    decreases s.len(), 1nat,
{
    lemma_parse_sound(s);
    if let Parsed::Complete { value: Frame::SimpleString(key), used } = parse(s) {
        lemma_parse_sound(s.skip(used as int));
    }
}

/// The map entries that the grammar reads in a row are as many as were
/// asked for, each with line text for its key and a well-formed frame for
/// its value, and lie within the bytes.
proof fn lemma_parse_entries_sound(s: Seq<u8>, n: nat)
    ensures
        parse_entries(s, n) matches Parsed::Complete { value, used } ==> value.len() == n && used
            <= s.len() && forall|i: int|
            0 <= i < value.len() ==> is_line_text((#[trigger] value[i]).0) && value[i].1.wf(),
    decreases s.len(), n + 2,
{
    if n > 0 {
        lemma_parse_entry_sound(s);
        if let Parsed::Complete { value: first, used } = parse_entry(s) {
            lemma_parse_entries_sound(s.skip(used as int), (n - 1) as nat);
            if let Parsed::Complete { value: tail, used: more } = parse_entries(
                s.skip(used as int),
                (n - 1) as nat,
            ) {
                let all = seq![first] + tail;
                assert forall|i: int| 0 <= i < all.len() implies is_line_text((#[trigger] all[i]).0)
                    && all[i].1.wf() by {
                    if i > 0 {
                        assert(all[i] == tail[i - 1]);
                    }
                }
            }
        }
    }
}

} // verus!
