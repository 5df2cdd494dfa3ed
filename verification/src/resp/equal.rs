//! Equality of frames: two frames are equal when they are of the same kind
//! and hold the same payload, element by element.

use vstd::prelude::*;
use vstd::std_specs::cmp::PartialEqSpecImpl;
use crate::resp::frame::{frames_view, MapEntry, RespFrame, RespMap};
use crate::resp::text::bytes_eq;

verus! {

/// Whether `a` and `b` hold equal frames in the same order.
fn same_frames(a: &Vec<RespFrame>, b: &Vec<RespFrame>) -> (r: bool)
    ensures
        r == (frames_view(a) == frames_view(b)),
    decreases a,
{
    if a.len() != b.len() {
        assert(frames_view(a).len() != frames_view(b).len());
        return false;
    }
    let mut i: usize = 0;
    while i < a.len()
        invariant
            i <= a.len(),
            a.len() == b.len(),
            forall|j: int| 0 <= j < i ==> frames_view(a)[j] == frames_view(b)[j],
        decreases a.len() - i,
    {
        if !a[i].eq(&b[i]) {
            assert(frames_view(a)[i as int] != frames_view(b)[i as int]);
            return false;
        }
        i += 1;
    }
    assert(frames_view(a) =~= frames_view(b));
    true
}

/// Whether `a` and `b` hold equal entries in the same order.
fn same_entries(a: &Vec<MapEntry>, b: &Vec<MapEntry>) -> (r: bool)
    ensures
        r == (RespMap(*a)@ == RespMap(*b)@),
    decreases a,
{
    if a.len() != b.len() {
        assert(RespMap(*a)@.len() != RespMap(*b)@.len());
        return false;
    }
    let mut i: usize = 0;
    while i < a.len()
        invariant
            i <= a.len(),
            a.len() == b.len(),
            forall|j: int| 0 <= j < i ==> RespMap(*a)@[j] == RespMap(*b)@[j],
        decreases a.len() - i,
    {
        if !bytes_eq(a[i].key.as_slice(), b[i].key.as_slice()) || !a[i].value.eq(&b[i].value) {
            assert(RespMap(*a)@[i as int] != RespMap(*b)@[i as int]);
            return false;
        }
        i += 1;
    }
    assert(RespMap(*a)@ =~= RespMap(*b)@);
    true
}

impl PartialEq for RespFrame {
    fn eq(&self, other: &Self) -> (r: bool)
        decreases self,
    {
        match (self, other) {
            (RespFrame::SimpleString(a), RespFrame::SimpleString(b)) => bytes_eq(
                a.0.as_slice(),
                b.0.as_slice(),
            ),
            (RespFrame::Error(a), RespFrame::Error(b)) => bytes_eq(a.0.as_slice(), b.0.as_slice()),
            (RespFrame::BulkError(a), RespFrame::BulkError(b)) => bytes_eq(
                a.0.as_slice(),
                b.0.as_slice(),
            ),
            (RespFrame::Integer(a), RespFrame::Integer(b)) => *a == *b,
            (RespFrame::BulkString(a), RespFrame::BulkString(b)) => bytes_eq(
                a.0.as_slice(),
                b.0.as_slice(),
            ),
            (RespFrame::NullBulkString(_), RespFrame::NullBulkString(_)) => true,
            (RespFrame::Array(a), RespFrame::Array(b)) => same_frames(&a.0, &b.0),
            (RespFrame::NullArray(_), RespFrame::NullArray(_)) => true,
            (RespFrame::Null(_), RespFrame::Null(_)) => true,
            (RespFrame::Boolean(a), RespFrame::Boolean(b)) => *a == *b,
            (RespFrame::Double(a), RespFrame::Double(b)) => bytes_eq(
                a.0.as_slice(),
                b.0.as_slice(),
            ),
            (RespFrame::BigNumber(a), RespFrame::BigNumber(b)) => bytes_eq(
                a.0.as_slice(),
                b.0.as_slice(),
            ),
            (RespFrame::Mapping(a), RespFrame::Mapping(b)) => {
                assert(RespMap(a.0)@ == a@ && RespMap(b.0)@ == b@);
                same_entries(&a.0, &b.0)
            },
            (RespFrame::Members(a), RespFrame::Members(b)) => same_frames(&a.0, &b.0),
            _ => false,
        }
    }
}

impl PartialEqSpecImpl for RespFrame {
    open spec fn obeys_eq_spec() -> bool {
        true
    }

    open spec fn eq_spec(&self, other: &RespFrame) -> bool {
        self@ == other@
    }
}

} // verus!
