//! Telling whether a frame is one that the wire format carries
//! faithfully.

use vstd::prelude::*;
use crate::resp::double::is_double;
use crate::resp::frame::{frames_view, is_line_text, MapEntry, RespFrame, RespMap};
use crate::resp::order::{bytes_lt, keys_ascending, lemma_lex_transitive, lex_lt};
use crate::resp::text::{has_no_breaks, is_utf8};

verus! {

/// Whether `t` can travel on one line.
pub fn is_text(t: &[u8]) -> (r: bool)
    ensures
        r == is_line_text(t@),
{
    has_no_breaks(t) && is_utf8(t)
}

/// Whether every frame of `v` is well formed.
fn all_valid(v: &Vec<RespFrame>) -> (r: bool)
    ensures
        r == forall|i: int| 0 <= i < v.len() ==> (#[trigger] frames_view(v)[i]).wf(),
    decreases v,
{
    let mut i: usize = 0;
    while i < v.len()
        invariant
            i <= v.len(),
            forall|j: int| 0 <= j < i ==> (#[trigger] frames_view(v)[j]).wf(),
        decreases v.len() - i,
    {
        if !v[i].is_valid() {
            assert(!frames_view(v)[i as int].wf());
            return false;
        }
        i += 1;
    }
    true
}

/// Whether the entries of `v` have line text for keys, in ascending
/// order, and well-formed frames for values.
fn entries_valid(v: &Vec<MapEntry>) -> (r: bool)
    ensures
        r == (keys_ascending(RespMap(*v)@) && forall|i: int|
            0 <= i < v.len() ==> is_line_text((#[trigger] RespMap(*v)@[i]).0) && RespMap(
                *v,
            )@[i].1.wf()),
    decreases v,
{
    let ghost es = RespMap(*v)@;
    let mut i: usize = 0;
    while i < v.len()
        invariant
            i <= v.len(),
            es == RespMap(*v)@,
            forall|a: int, b: int| 0 <= a < b < i ==> lex_lt(#[trigger] es[a].0, #[trigger] es[b].0),
            forall|j: int| 0 <= j < i ==> is_line_text((#[trigger] es[j]).0) && es[j].1.wf(),
        decreases v.len() - i,
    {
        if !is_text(v[i].key.as_slice()) || !v[i].value.is_valid() {
            assert(!(is_line_text(es[i as int].0) && es[i as int].1.wf()));
            return false;
        }
        if i > 0 {
            if !bytes_lt(v[i - 1].key.as_slice(), v[i].key.as_slice()) {
                assert(!lex_lt(es[i - 1].0, es[i as int].0));
                return false;
            }
            assert forall|a: int| 0 <= a < i implies lex_lt(
                #[trigger] es[a].0,
                es[i as int].0,
            ) by {
                if a < i - 1 {
                    lemma_lex_transitive(es[a].0, es[i - 1].0, es[i as int].0);
                }
            }
        }
        i += 1;
    }
    true
}

impl RespFrame {
    /// Whether the frame is well formed: whether its wire form reads back
    /// as the frame itself.
    pub fn is_valid(&self) -> (r: bool)
        ensures
            r == self@.wf(),
        decreases self,
    {
        assert(usize::MAX <= u64::MAX);
        match self {
            RespFrame::SimpleString(s) => is_text(s.0.as_slice()),
            RespFrame::Error(s) => is_text(s.0.as_slice()),
            RespFrame::Double(d) => has_no_breaks(d.0.as_slice()) && is_double(d.0.as_slice()),
            RespFrame::Array(a) => {
                let ok = all_valid(&a.0);
                assert(ok == self@.wf()) by {
                    assert(a.0.len() <= usize::MAX);
                }
                ok
            },
            RespFrame::Members(s) => {
                let ok = all_valid(&s.0);
                assert(ok == self@.wf()) by {
                    assert(s.0.len() <= usize::MAX);
                }
                ok
            },
            RespFrame::Mapping(m) => {
                let ok = entries_valid(&m.0);
                assert(ok == self@.wf()) by {
                    assert(m.0.len() <= usize::MAX);
                    assert(RespMap(m.0)@ == m@);
                }
                ok
            },
            RespFrame::BulkError(s) => {
                assert(s.0.len() <= usize::MAX);
                true
            },
            RespFrame::BulkString(s) => {
                assert(s.0.len() <= usize::MAX);
                true
            },
            RespFrame::BigNumber(n) => {
                assert(n.0.len() <= usize::MAX);
                true
            },
            RespFrame::Integer(_) => true,
            RespFrame::Boolean(_) => true,
            RespFrame::Null(_) => true,
            RespFrame::NullArray(_) => true,
            RespFrame::NullBulkString(_) => true,
        }
    }
}

} // verus!
