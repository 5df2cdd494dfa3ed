//! Why a buffer did not yield a frame.

use vstd::prelude::*;

verus! {

/// The two ways in which decoding ends without a frame.
#[derive(Debug, Clone, Copy, PartialEq, Eq, Structural)]
pub enum RespError {
    /// The buffer holds the beginning of a frame: more bytes are needed.
    NotComplete,
    /// The buffer cannot be the beginning of any frame.
    InvalidFrame,
}

impl RespError {
    /// A description of the error.
    pub fn message(&self) -> (s: String)
        ensures
            s@ == match *self {
                RespError::NotComplete => "frame is not complete"@,
                RespError::InvalidFrame => "invalid frame"@,
            },
    {
        match self {
            RespError::NotComplete => "frame is not complete".to_string(),
            RespError::InvalidFrame => "invalid frame".to_string(),
        }
    }
}

} // verus!
