use bytes::BytesMut;
use simple_redis::{
    BulkString, RespArray, RespError, RespFrame, RespFrameCodec, RespNull, SimpleString,
};

#[test]
fn decode_takes_exactly_one_frame_out_of_the_buffer() {
    let mut buf = BytesMut::from(&b"+OK\r\n:+12\r\n$3\r\nab"[..]);
    assert_eq!(RespFrame::decode(&mut buf), Ok(SimpleString::new("OK").into()));
    assert_eq!(&buf[..], b":+12\r\n$3\r\nab");
    assert_eq!(RespFrame::decode(&mut buf), Ok(RespFrame::Integer(12)));
    assert_eq!(&buf[..], b"$3\r\nab");
    assert_eq!(RespFrame::decode(&mut buf), Err(RespError::NotComplete));
    assert_eq!(&buf[..], b"$3\r\nab");
    buf.extend_from_slice(b"c\r\n");
    assert_eq!(RespFrame::decode(&mut buf), Ok(BulkString::new("abc").into()));
    assert!(buf.is_empty());
}

#[test]
fn an_invalid_frame_leaves_the_buffer_as_it_is() {
    let mut buf = BytesMut::from(&b"?nonsense\r\n"[..]);
    assert_eq!(RespFrame::decode(&mut buf), Err(RespError::InvalidFrame));
    assert_eq!(&buf[..], b"?nonsense\r\n");
}

#[test]
fn codec_waits_for_the_rest_of_a_frame() {
    let mut codec = RespFrameCodec;
    let request: RespFrame = RespArray::new(vec![
        BulkString::new("get").into(),
        BulkString::new("key").into(),
    ])
    .into();
    let mut wire = BytesMut::new();
    codec.encode(request.clone(), &mut wire).unwrap();
    assert_eq!(&wire[..], b"*2\r\n$3\r\nget\r\n$3\r\nkey\r\n");

    let mut buf = BytesMut::new();
    for (i, byte) in wire.iter().enumerate() {
        assert_eq!(codec.decode(&mut buf), Ok(None), "after {} bytes", i);
        assert_eq!(buf.len(), i);
        buf.extend_from_slice(&[*byte]);
    }
    assert_eq!(codec.decode(&mut buf), Ok(Some(request)));
    assert!(buf.is_empty());
    assert_eq!(codec.decode(&mut buf), Ok(None));
}

#[test]
fn codec_reports_an_invalid_frame() {
    let mut codec = RespFrameCodec;
    let mut buf = BytesMut::from(&b"hello\r\n"[..]);
    assert_eq!(codec.decode(&mut buf), Err(RespError::InvalidFrame));
    assert_eq!(&buf[..], b"hello\r\n");
}

#[test]
fn encode_puts_frames_one_behind_the_other() {
    let mut codec = RespFrameCodec;
    let mut buf = BytesMut::new();
    codec.encode(RespFrame::Null(RespNull), &mut buf).unwrap();
    codec.encode(RespFrame::Boolean(true), &mut buf).unwrap();
    assert_eq!(&buf[..], b"_\r\n#t\r\n");
}

#[test]
fn end_of_stream_is_clean_on_an_empty_buffer() {
    let mut codec = RespFrameCodec;
    let mut buf = BytesMut::new();
    assert_eq!(codec.decode_eof(&mut buf), Ok(None));
}

#[test]
fn end_of_stream_inside_a_frame_is_an_error() {
    let mut codec = RespFrameCodec;
    let mut buf = BytesMut::from(&b"$5\r\nhel"[..]);
    assert_eq!(codec.decode_eof(&mut buf), Err(RespError::NotComplete));
    assert_eq!(&buf[..], b"$5\r\nhel");
}

#[test]
fn end_of_stream_still_hands_out_buffered_frames() {
    let mut codec = RespFrameCodec;
    let mut buf = BytesMut::from(&b"+a\r\n+b\r\n"[..]);
    assert_eq!(codec.decode_eof(&mut buf), Ok(Some(SimpleString::new("a").into())));
    assert_eq!(codec.decode_eof(&mut buf), Ok(Some(SimpleString::new("b").into())));
    assert_eq!(codec.decode_eof(&mut buf), Ok(None));
    let mut bad = BytesMut::from(&b"+a\r\n?"[..]);
    assert_eq!(codec.decode_eof(&mut bad), Ok(Some(SimpleString::new("a").into())));
    assert_eq!(codec.decode_eof(&mut bad), Err(RespError::InvalidFrame));
}
