//! Conversions into frames.

use vstd::prelude::*;
use vstd::std_specs::convert::FromSpecImpl;
use vstd::string::StringSliceAdditionalSpecFns;
use crate::resp::frame::{
    BigNumber, BulkError, BulkString, Frame, RespArray, RespDouble, RespFrame, RespMap, RespNull,
    RespNullArray, RespNullBulkString, RespSet, SimpleError, SimpleString,
};

verus! {

impl From<SimpleString> for RespFrame {
    fn from(value: SimpleString) -> (frame: RespFrame) {
        RespFrame::SimpleString(value)
    }
}

impl FromSpecImpl<SimpleString> for RespFrame {
    open spec fn obeys_from_spec() -> bool {
        true
    }

    open spec fn from_spec(value: SimpleString) -> RespFrame {
        RespFrame::SimpleString(value)
    }
}

impl From<SimpleError> for RespFrame {
    fn from(value: SimpleError) -> (frame: RespFrame) {
        RespFrame::Error(value)
    }
}

impl FromSpecImpl<SimpleError> for RespFrame {
    open spec fn obeys_from_spec() -> bool {
        true
    }

    open spec fn from_spec(value: SimpleError) -> RespFrame {
        RespFrame::Error(value)
    }
}

impl From<BulkError> for RespFrame {
    fn from(value: BulkError) -> (frame: RespFrame) {
        RespFrame::BulkError(value)
    }
}

impl FromSpecImpl<BulkError> for RespFrame {
    open spec fn obeys_from_spec() -> bool {
        true
    }

    open spec fn from_spec(value: BulkError) -> RespFrame {
        RespFrame::BulkError(value)
    }
}

impl From<BulkString> for RespFrame {
    fn from(value: BulkString) -> (frame: RespFrame) {
        RespFrame::BulkString(value)
    }
}

impl FromSpecImpl<BulkString> for RespFrame {
    open spec fn obeys_from_spec() -> bool {
        true
    }

    open spec fn from_spec(value: BulkString) -> RespFrame {
        RespFrame::BulkString(value)
    }
}

impl From<RespNullBulkString> for RespFrame {
    fn from(value: RespNullBulkString) -> (frame: RespFrame) {
        RespFrame::NullBulkString(value)
    }
}

impl FromSpecImpl<RespNullBulkString> for RespFrame {
    open spec fn obeys_from_spec() -> bool {
        true
    }

    open spec fn from_spec(value: RespNullBulkString) -> RespFrame {
        RespFrame::NullBulkString(value)
    }
}

impl From<RespArray> for RespFrame {
    fn from(value: RespArray) -> (frame: RespFrame) {
        RespFrame::Array(value)
    }
}

impl FromSpecImpl<RespArray> for RespFrame {
    open spec fn obeys_from_spec() -> bool {
        true
    }

    open spec fn from_spec(value: RespArray) -> RespFrame {
        RespFrame::Array(value)
    }
}

impl From<RespNullArray> for RespFrame {
    fn from(value: RespNullArray) -> (frame: RespFrame) {
        RespFrame::NullArray(value)
    }
}

impl FromSpecImpl<RespNullArray> for RespFrame {
    open spec fn obeys_from_spec() -> bool {
        true
    }

    open spec fn from_spec(value: RespNullArray) -> RespFrame {
        RespFrame::NullArray(value)
    }
}

impl From<RespNull> for RespFrame {
    fn from(value: RespNull) -> (frame: RespFrame) {
        RespFrame::Null(value)
    }
}

impl FromSpecImpl<RespNull> for RespFrame {
    open spec fn obeys_from_spec() -> bool {
        true
    }

    open spec fn from_spec(value: RespNull) -> RespFrame {
        RespFrame::Null(value)
    }
}

impl From<RespDouble> for RespFrame {
    fn from(value: RespDouble) -> (frame: RespFrame) {
        RespFrame::Double(value)
    }
}

impl FromSpecImpl<RespDouble> for RespFrame {
    open spec fn obeys_from_spec() -> bool {
        true
    }

    open spec fn from_spec(value: RespDouble) -> RespFrame {
        RespFrame::Double(value)
    }
}

impl From<BigNumber> for RespFrame {
    fn from(value: BigNumber) -> (frame: RespFrame) {
        RespFrame::BigNumber(value)
    }
}

impl FromSpecImpl<BigNumber> for RespFrame {
    open spec fn obeys_from_spec() -> bool {
        true
    }

    open spec fn from_spec(value: BigNumber) -> RespFrame {
        RespFrame::BigNumber(value)
    }
}

impl From<RespMap> for RespFrame {
    fn from(value: RespMap) -> (frame: RespFrame) {
        RespFrame::Mapping(value)
    }
}

impl FromSpecImpl<RespMap> for RespFrame {
    open spec fn obeys_from_spec() -> bool {
        true
    }

    open spec fn from_spec(value: RespMap) -> RespFrame {
        RespFrame::Mapping(value)
    }
}

impl From<RespSet> for RespFrame {
    fn from(value: RespSet) -> (frame: RespFrame) {
        RespFrame::Members(value)
    }
}

impl FromSpecImpl<RespSet> for RespFrame {
    open spec fn obeys_from_spec() -> bool {
        true
    }

    open spec fn from_spec(value: RespSet) -> RespFrame {
        RespFrame::Members(value)
    }
}

impl From<i64> for RespFrame {
    fn from(value: i64) -> (frame: RespFrame) {
        RespFrame::Integer(value)
    }
}

impl FromSpecImpl<i64> for RespFrame {
    open spec fn obeys_from_spec() -> bool {
        true
    }

    open spec fn from_spec(value: i64) -> RespFrame {
        RespFrame::Integer(value)
    }
}

impl From<bool> for RespFrame {
    fn from(value: bool) -> (frame: RespFrame) {
        RespFrame::Boolean(value)
    }
}

impl FromSpecImpl<bool> for RespFrame {
    open spec fn obeys_from_spec() -> bool {
        true
    }

    open spec fn from_spec(value: bool) -> RespFrame {
        RespFrame::Boolean(value)
    }
}

/// Text becomes a simple string. The frame holds a byte vector of its own,
/// so the contract speaks of what the frame stands for.
impl From<&str> for RespFrame {
    fn from(text: &str) -> (frame: RespFrame)
        ensures
            frame@ == Frame::SimpleString(text.spec_bytes()),
    {
        RespFrame::SimpleString(SimpleString::new(text))
    }
}

impl FromSpecImpl<&str> for RespFrame {
    open spec fn obeys_from_spec() -> bool {
        false
    }

    open spec fn from_spec(text: &str) -> RespFrame {
        arbitrary()
    }
}

/// Bytes become a bulk string. The frame holds a byte vector of its own,
/// so the contract speaks of what the frame stands for.
impl From<&[u8]> for RespFrame {
    fn from(data: &[u8]) -> (frame: RespFrame)
        ensures
            frame@ == Frame::BulkString(data@),
    {
        RespFrame::BulkString(BulkString::new(data))
    }
}

impl FromSpecImpl<&[u8]> for RespFrame {
    open spec fn obeys_from_spec() -> bool {
        false
    }

    open spec fn from_spec(data: &[u8]) -> RespFrame {
        arbitrary()
    }
}

/// Bytes become a bulk string. The frame holds a byte vector of its own,
/// so the contract speaks of what the frame stands for.
impl<const N: usize> From<&[u8; N]> for RespFrame {
    fn from(data: &[u8; N]) -> (frame: RespFrame)
        ensures
            frame@ == Frame::BulkString(data@),
    {
        RespFrame::BulkString(BulkString::new(data))
    }
}

impl<const N: usize> FromSpecImpl<&[u8; N]> for RespFrame {
    open spec fn obeys_from_spec() -> bool {
        false
    }

    open spec fn from_spec(data: &[u8; N]) -> RespFrame {
        arbitrary()
    }
}

} // verus!
