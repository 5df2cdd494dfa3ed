use bytes::BytesMut;
use simple_redis::{RespFrame, RespFrameCodec};

#[test]
fn test_resp_frame_codec() {
    let mut codec = RespFrameCodec;
    let mut buf = BytesMut::new();
    let frame: RespFrame = "PING".into();
    codec.encode(frame.clone(), &mut buf).unwrap();
    let decoded = codec.decode(&mut buf).unwrap().unwrap();
    assert_eq!(decoded, frame);
}
