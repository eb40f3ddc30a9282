use chat::frame::{read_message, write_message, ProtocolError, MAX_MESSAGE_LEN};

#[test]
fn write_message_frames_ascii() {
    let mut out = Vec::new();
    assert_eq!(write_message(&mut out, "hi"), Ok(()));
    assert_eq!(out, vec![2u8, b'h', b'i']);
}

#[test]
fn write_message_appends_after_existing_bytes() {
    let mut out = vec![7u8];
    assert_eq!(write_message(&mut out, "a"), Ok(()));
    assert_eq!(write_message(&mut out, ""), Ok(()));
    assert_eq!(out, vec![7u8, 1, b'a', 0]);
}

#[test]
fn write_message_counts_utf8_bytes() {
    let mut out = Vec::new();
    assert_eq!(write_message(&mut out, "é"), Ok(()));
    assert_eq!(out, vec![2u8, 0xC3, 0xA9]);
}

#[test]
fn write_message_accepts_255_bytes() {
    let msg = "x".repeat(MAX_MESSAGE_LEN);
    let mut out = Vec::new();
    assert_eq!(write_message(&mut out, &msg), Ok(()));
    assert_eq!(out.len(), 256);
    assert_eq!(out[0], 255);
}

#[test]
fn write_message_rejects_256_bytes() {
    let msg = "x".repeat(256);
    let mut out = vec![1u8, 2, 3];
    assert_eq!(write_message(&mut out, &msg), Err(ProtocolError::MessageTooLong));
    assert_eq!(out, vec![1u8, 2, 3]);
}

#[test]
fn read_message_reads_one_frame_and_advances() {
    let bytes = [3u8, b'a', b'b', b'c', 9, 9];
    let mut reader: &[u8] = &bytes;
    assert_eq!(read_message(&mut reader), Ok("abc".to_string()));
    assert_eq!(reader, &[9u8, 9][..]);
}

#[test]
fn read_message_empty_payload() {
    let bytes = [0u8];
    let mut reader: &[u8] = &bytes;
    assert_eq!(read_message(&mut reader), Ok(String::new()));
    assert!(reader.is_empty());
}

#[test]
fn read_message_on_nothing_is_eof() {
    let mut reader: &[u8] = &[];
    assert_eq!(read_message(&mut reader), Err(ProtocolError::UnexpectedEof));
}

#[test]
fn read_message_on_short_frame_is_eof_and_consumes_all() {
    let bytes = [5u8, b'a', b'b'];
    let mut reader: &[u8] = &bytes;
    assert_eq!(read_message(&mut reader), Err(ProtocolError::UnexpectedEof));
    assert!(reader.is_empty());
}

#[test]
fn read_message_rejects_invalid_utf8_after_consuming_frame() {
    let bytes = [1u8, 0xFF, 1, b'z'];
    let mut reader: &[u8] = &bytes;
    assert_eq!(read_message(&mut reader), Err(ProtocolError::InvalidUtf8));
    assert_eq!(reader, &[1u8, b'z'][..]);
    assert_eq!(read_message(&mut reader), Ok("z".to_string()));
}

#[test]
fn frames_round_trip_in_order() {
    let mut out = Vec::new();
    write_message(&mut out, "héllo").unwrap();
    write_message(&mut out, "wörld").unwrap();
    out.push(42);
    let mut reader: &[u8] = &out;
    assert_eq!(read_message(&mut reader), Ok("héllo".to_string()));
    assert_eq!(read_message(&mut reader), Ok("wörld".to_string()));
    assert_eq!(reader, &[42u8][..]);
}

#[test]
fn round_trip_of_longest_message() {
    let msg = "ü".repeat(127) + "a";
    assert_eq!(msg.len(), 255);
    let mut out = Vec::new();
    write_message(&mut out, &msg).unwrap();
    let mut reader: &[u8] = &out;
    assert_eq!(read_message(&mut reader), Ok(msg));
    assert!(reader.is_empty());
}
