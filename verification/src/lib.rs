//! A RESP3 protocol engine for an in-memory data server.
//!
//! * [`resp`] holds the frames, their wire format, the encoder, the
//!   incremental decoder and the laws that tie the two together: decoding
//!   undoes encoding, and a frame that has not arrived in full is never
//!   mistaken for a frame or for garbage.
//! * [`network`] holds the codec that takes frames out of a connection's
//!   receive buffer and puts frames into its send buffer, and the handling
//!   of one request.
//! * [`cmd`] reads a request frame as a command and runs it.
//! * [`backend`] is the store that commands run on.
//! * [`buffer`] says what the codec relies on of `bytes::BytesMut`.
//!
//! Contracts are stated over models: a frame is viewed as a [`resp::frame::Frame`],
//! a buffer as the sequence of its bytes, the store as a sequence of entries
//! in ascending key order.

pub mod backend;
pub mod buffer;
pub mod cmd;
pub mod network;
pub mod resp;

pub use backend::{Backend, Value, WrongType};
pub use cmd::{Command, CommandError};
pub use network::{request_handler, connection_step, Incoming, RespFrameCodec, Step};
pub use resp::encode::RespEncode;
pub use resp::error::RespError;
pub use resp::frame::{
    BigNumber, BulkError, BulkString, IntoBytes, MapEntry, RespArray, RespDouble, RespFrame,
    RespMap, RespNull, RespNullArray, RespNullBulkString, RespSet, SimpleError, SimpleString,
};
