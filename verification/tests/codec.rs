use bytes::BytesMut;
use chat::codec::ChatCodec;
use chat::frame::ProtocolError;

#[test]
fn encode_into_empty_buffer() {
    let mut buf = BytesMut::new();
    assert_eq!(ChatCodec.encode("hey".to_string(), &mut buf), Ok(()));
    assert_eq!(&buf[..], &[3u8, b'h', b'e', b'y'][..]);
}

#[test]
fn encode_into_empty_buffer_grows_it() {
    let mut buf = BytesMut::with_capacity(0);
    let msg = "y".repeat(200);
    assert_eq!(ChatCodec.encode(msg.clone(), &mut buf), Ok(()));
    assert_eq!(buf.len(), 201);
    assert_eq!(buf[0], 200);
    assert_eq!(&buf[1..], msg.as_bytes());
}

#[test]
fn encode_appends_when_there_is_room() {
    let mut buf = BytesMut::with_capacity(64);
    buf.extend_from_slice(b"ab");
    assert_eq!(ChatCodec.encode("c".to_string(), &mut buf), Ok(()));
    assert_eq!(&buf[..], &[b'a', b'b', 1, b'c'][..]);
}

#[test]
fn encode_rejects_long_message_and_keeps_contents() {
    let mut buf = BytesMut::with_capacity(64);
    buf.extend_from_slice(b"ab");
    let msg = "z".repeat(300);
    assert_eq!(ChatCodec.encode(msg, &mut buf), Err(ProtocolError::MessageTooLong));
    assert_eq!(&buf[..], &b"ab"[..]);
}

#[test]
fn decode_waits_for_a_whole_frame() {
    let mut buf = BytesMut::new();
    assert_eq!(ChatCodec.decode(&mut buf), Ok(None));
    buf.extend_from_slice(&[4u8, b'a', b'b']);
    assert_eq!(ChatCodec.decode(&mut buf), Ok(None));
    assert_eq!(&buf[..], &[4u8, b'a', b'b'][..]);
    buf.extend_from_slice(b"cd!");
    assert_eq!(ChatCodec.decode(&mut buf), Ok(Some("abcd".to_string())));
    assert_eq!(&buf[..], &b"!"[..]);
}

#[test]
fn decode_after_encode_gives_the_messages_back() {
    let mut buf = BytesMut::new();
    ChatCodec.encode("first".to_string(), &mut buf).unwrap();
    let mut more = BytesMut::new();
    ChatCodec.encode("sëcond".to_string(), &mut more).unwrap();
    buf.extend_from_slice(&more);
    assert_eq!(ChatCodec.decode(&mut buf), Ok(Some("first".to_string())));
    assert_eq!(ChatCodec.decode(&mut buf), Ok(Some("sëcond".to_string())));
    assert_eq!(ChatCodec.decode(&mut buf), Ok(None));
    assert!(buf.is_empty());
}

#[test]
fn decode_rejects_invalid_utf8_and_drops_the_frame() {
    let mut buf = BytesMut::new();
    buf.extend_from_slice(&[2u8, 0xC3, 0x28, 0, 1]);
    assert_eq!(ChatCodec.decode(&mut buf), Err(ProtocolError::InvalidUtf8));
    assert_eq!(&buf[..], &[0u8, 1][..]);
    assert_eq!(ChatCodec.decode(&mut buf), Ok(Some(String::new())));
    assert_eq!(&buf[..], &[1u8][..]);
}

#[test]
fn try_encode_reports_a_full_buffer() {
    let mut buf = BytesMut::with_capacity(64);
    buf.extend_from_slice(b"ab");
    let room = buf.capacity() - buf.len();
    let msg = "q".repeat(room);
    assert_eq!(ChatCodec.try_encode(msg, &mut buf), Err(ProtocolError::BufferFull));
    assert_eq!(&buf[..], &b"ab"[..]);
}

#[test]
fn try_encode_behaves_as_encode_when_there_is_room() {
    let mut buf = BytesMut::new();
    assert_eq!(ChatCodec.try_encode("ok".to_string(), &mut buf), Ok(()));
    assert_eq!(&buf[..], &[2u8, b'o', b'k'][..]);
    let mut buf = BytesMut::with_capacity(64);
    buf.extend_from_slice(b"ab");
    assert_eq!(ChatCodec.try_encode("z".repeat(256), &mut buf), Err(ProtocolError::MessageTooLong));
    assert_eq!(&buf[..], &b"ab"[..]);
}
