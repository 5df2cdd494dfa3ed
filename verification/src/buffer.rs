//! The receive and send buffers of a connection, `bytes::BytesMut`, as the
//! codec sees them: a sequence of bytes that grows at the back and is
//! consumed from the front.
//!
//! Nothing here is proved. Each function makes one call into `bytes`, and
//! its contract says what that call is relied on to do.

use vstd::prelude::*;

verus! {

/// `bytes::BytesMut`, whose inside is not looked into.
#[verifier::external_type_specification]
#[verifier::external_body]
pub struct ExBytesMut(bytes::BytesMut);

/// The bytes that a buffer holds, front first.
pub uninterp spec fn contents(buf: bytes::BytesMut) -> Seq<u8>;

/// The number of bytes in the buffer, as `BytesMut::len` gives it.
#[verifier::external_body]
pub(crate) fn buffered_len(buf: &bytes::BytesMut) -> (n: usize)
    ensures
        n == contents(*buf).len(),
{
    buf.len()
}

/// The bytes of the buffer as a slice, as `BytesMut::as_ref` gives them.
#[verifier::external_body]
pub(crate) fn buffered<'a>(buf: &'a bytes::BytesMut) -> (bytes: &'a [u8])
    ensures
        bytes@ == contents(*buf),
{
    buf.as_ref()
}

/// Drops the first `n` bytes of the buffer and keeps the others, by
/// `Buf::advance`. That call panics where the buffer holds fewer than `n`
/// bytes, so `n` may not be more than the buffer holds.
#[verifier::external_body]
pub(crate) fn consume(buf: &mut bytes::BytesMut, n: usize)
    requires
        n <= contents(*old(buf)).len(),
    ensures
        contents(*final(buf)) == contents(*old(buf)).skip(n as int),
{
    bytes::Buf::advance(buf, n)
}

/// Puts `data` behind the bytes of the buffer and keeps those, by
/// `BytesMut::extend_from_slice`, which makes room as needed. As with
/// `Vec`, running out of memory is not part of the contract.
#[verifier::external_body]
pub(crate) fn extend(buf: &mut bytes::BytesMut, data: &[u8])
    ensures
        contents(*final(buf)) == contents(*old(buf)) + data@,
{
    buf.extend_from_slice(data)
}

} // verus!
