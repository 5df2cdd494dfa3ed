//! The stream codec and the handling of one connection.
//!
//! The codec turns the bytes that a connection has received into frames,
//! one at a time, and frames to send into bytes. The handler answers each
//! request frame from the store. Reading from and writing to the
//! connection is left to the caller, who feeds in what arrived and sends
//! out what is handed back.

use vstd::prelude::*;
use bytes::BytesMut;
use crate::backend::{Backend, ValueModel};
use crate::buffer::{buffered, buffered_len, consume, contents, extend};
use crate::cmd::{interpret, Command};
use crate::resp::encode::RespEncode;
use crate::resp::error::RespError;
use crate::resp::frame::{Frame, RespFrame};
use crate::resp::grammar::{parse, Parsed};
use crate::resp::order::keys_ascending;

verus! {

impl RespFrame {
    /// Takes the frame at the front of `buf` out of it.
    ///
    /// A complete frame is handed back and exactly its bytes leave the
    /// buffer. Where the buffer holds only the beginning of a frame, or
    /// bytes that start no frame, the error says which, and the buffer
    /// stays as it is.
    pub fn decode(buf: &mut BytesMut) -> (r: Result<RespFrame, RespError>)
        ensures
            match parse(contents(*old(buf))) {
                Parsed::Complete { value, used } => r matches Ok(f) && f@ == value && f@.wf()
                    && contents(*final(buf)) == contents(*old(buf)).skip(used as int),
                Parsed::Incomplete => r == Err::<RespFrame, RespError>(RespError::NotComplete)
                    && contents(*final(buf)) == contents(*old(buf)),
                Parsed::Invalid => r == Err::<RespFrame, RespError>(RespError::InvalidFrame)
                    && contents(*final(buf)) == contents(*old(buf)),
            },
    {
        match RespFrame::decode_slice(buffered(buf)) {
            Ok((frame, used)) => {
                consume(buf, used);
                Ok(frame)
            },
            Err(e) => Err(e),
        }
    }
}

/// The codec of a connection: frames out of received bytes, bytes out of
/// frames to send.
#[derive(Debug, Clone, Copy, PartialEq, Eq)]
pub struct RespFrameCodec;

impl RespFrameCodec {
    /// Puts the wire form of `item` behind the bytes of `dst`.
    pub fn encode(&mut self, item: RespFrame, dst: &mut BytesMut) -> (r: Result<(), RespError>)
        ensures
            r is Ok,
            contents(*final(dst)) == contents(*old(dst)) + item@.wire(),
    {
        let encoded: Vec<u8> = item.encode();
        extend(dst, encoded.as_slice());
        Ok(())
    }

    /// Takes the next frame out of `src`, if all of it has arrived.
    ///
    /// Where more bytes are needed the answer is `None` and `src` stays
    /// as it is. Bytes that start no frame are an error.
    pub fn decode(&mut self, src: &mut BytesMut) -> (r: Result<Option<RespFrame>, RespError>)
        ensures
            match parse(contents(*old(src))) {
                Parsed::Complete { value, used } => r matches Ok(Some(f)) && f@ == value && f@.wf()
                    && contents(*final(src)) == contents(*old(src)).skip(used as int),
                Parsed::Incomplete => r matches Ok(None) && contents(*final(src)) == contents(
                    *old(src),
                ),
                Parsed::Invalid => r == Err::<Option<RespFrame>, RespError>(
                    RespError::InvalidFrame,
                ) && contents(*final(src)) == contents(*old(src)),
            },
    {
        match RespFrame::decode(src) {
            Ok(frame) => Ok(Some(frame)),
            Err(RespError::NotComplete) => Ok(None),
            Err(e) => Err(e),
        }
    }

    /// Takes the next frame out of `src` when no more bytes will arrive.
    ///
    /// An empty buffer is the clean end of the stream. A buffer that holds
    /// only the beginning of a frame is an error: the stream was cut off.
    pub fn decode_eof(&mut self, src: &mut BytesMut) -> (r: Result<Option<RespFrame>, RespError>)
        ensures
            match parse(contents(*old(src))) {
                Parsed::Complete { value, used } => r matches Ok(Some(f)) && f@ == value && f@.wf()
                    && contents(*final(src)) == contents(*old(src)).skip(used as int),
                Parsed::Incomplete => contents(*final(src)) == contents(*old(src)) && if contents(
                    *old(src),
                ).len() == 0 {
                    r matches Ok(None)
                } else {
                    r == Err::<Option<RespFrame>, RespError>(RespError::NotComplete)
                },
                Parsed::Invalid => r == Err::<Option<RespFrame>, RespError>(
                    RespError::InvalidFrame,
                ) && contents(*final(src)) == contents(*old(src)),
            },
    {
        match self.decode(src) {
            Ok(Some(frame)) => Ok(Some(frame)),
            Ok(None) => {
                if buffered_len(src) == 0 {
                    Ok(None)
                } else {
                    Err(RespError::NotComplete)
                }
            },
            Err(e) => Err(e),
        }
    }
}

/// The reply to a request frame on the store `es`: the reply of the
/// command that the frame asks for, or an error frame where it asks for
/// none.
pub open spec fn response(request: Frame, es: Seq<(Seq<u8>, ValueModel)>) -> Frame {
    match interpret(request) {
        Ok(command) => command.reply(es),
        Err(e) => Frame::Error(e.text()),
    }
}

/// The store after a request frame was handled on the store `es`. A frame
/// that asks for no command leaves the store as it is.
pub open spec fn store_after(request: Frame, es: Seq<(Seq<u8>, ValueModel)>) -> Seq<
    (Seq<u8>, ValueModel),
> {
    match interpret(request) {
        Ok(command) => command.effect(es),
        Err(_) => es,
    }
}

/// Answers one request frame from the store.
pub fn request_handler(request: RespFrame, backend: &mut Backend) -> (reply: RespFrame)
    ensures
        reply@ == response(request@, old(backend)@),
        final(backend)@ == store_after(request@, old(backend)@),
        keys_ascending(old(backend)@) ==> keys_ascending(final(backend)@),
{
    match Command::try_from(request) {
        Ok(command) => command.execute(backend),
        Err(e) => e.to_frame(),
    }
}

/// What the stream of a connection hands over next.
#[derive(Debug, Clone, PartialEq, Eq)]
pub enum Incoming {
    /// A request frame.
    Request(RespFrame),
    /// The received bytes are no frame, or the stream was cut off inside
    /// one.
    Broken(RespError),
    /// The peer has closed the stream between two frames.
    End,
}

/// What to do with the connection next.
#[derive(Debug, Clone, PartialEq, Eq)]
pub enum Step {
    /// Send the frame, then wait for the next request.
    Reply(RespFrame),
    /// Close the connection after a clean end.
    Close,
    /// Close the connection and report the error.
    Abort(RespError),
}

/// Decides the next step of a connection: a request is answered from the
/// store and the connection goes on; a broken stream closes it with the
/// error; the end of the stream closes it cleanly. Only a request touches
/// the store.
pub fn connection_step(incoming: Incoming, backend: &mut Backend) -> (step: Step)
    ensures
        match incoming {
            Incoming::Request(request) => step matches Step::Reply(reply) && reply@ == response(
                request@,
                old(backend)@,
            ) && final(backend)@ == store_after(request@, old(backend)@),
            Incoming::Broken(e) => step == Step::Abort(e) && final(backend)@ == old(backend)@,
            Incoming::End => step == Step::Close && final(backend)@ == old(backend)@,
        },
        keys_ascending(old(backend)@) ==> keys_ascending(final(backend)@),
{
    match incoming {
        Incoming::Request(request) => Step::Reply(request_handler(request, backend)),
        Incoming::Broken(e) => Step::Abort(e),
        Incoming::End => Step::Close,
    }
}

} // verus!
