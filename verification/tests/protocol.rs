use bytes::BytesMut;
use shell::codec::{encode_message, MessageCodec};
use shell::message::{hex_dump, Message, HEADER_SIZE, MAGIC_NUM, MAX_MSG_SIZE};
use shell::ShellError;

fn frame(msg_id: u16, session_id: u64, data: &[u8]) -> Vec<u8> {
    let mut v = Vec::new();
    v.extend_from_slice(&MAGIC_NUM.to_be_bytes());
    v.extend_from_slice(&msg_id.to_be_bytes());
    v.extend_from_slice(&((data.len() + 8) as u32).to_be_bytes());
    v.extend_from_slice(&session_id.to_be_bytes());
    v.extend_from_slice(data);
    v
}

#[test]
fn constants_match_the_protocol() {
    assert_eq!(HEADER_SIZE, 8);
    assert_eq!(MAGIC_NUM, 0x7368);
    assert_eq!(MAX_MSG_SIZE, 65536);
}

#[test]
fn new_keeps_fields() {
    let m = Message::new(3, 99, vec![1, 2, 3]);
    assert_eq!(m.msg_id, 3);
    assert_eq!(m.session_id, 99);
    assert_eq!(m.data, vec![1, 2, 3]);
}

#[test]
fn encode_writes_header_and_body() {
    let m = Message::new(1, 42, b"hi".to_vec());
    let buf = m.encode();
    assert_eq!(
        &buf[..],
        &[0x73, 0x68, 0, 1, 0, 0, 0, 10, 0, 0, 0, 0, 0, 0, 0, 42, b'h', b'i'][..]
    );
    assert_eq!(&buf[..], &frame(1, 42, b"hi")[..]);
}

#[test]
fn encode_of_empty_data_has_body_of_eight() {
    let m = Message::new(0xffff, u64::MAX, Vec::new());
    let buf = m.encode();
    assert_eq!(&buf[..], &frame(0xffff, u64::MAX, b"")[..]);
    assert_eq!(buf.len(), 16);
}

#[test]
fn decode_gives_back_encoded_message_and_keeps_rest() {
    let m = Message::new(10, 7, b"move".to_vec());
    let mut buf = m.encode();
    buf.extend_from_slice(&[9, 9, 9]);
    let d = Message::decode(&mut buf).expect("a message");
    assert_eq!(d.msg_id, 10);
    assert_eq!(d.session_id, 7);
    assert_eq!(d.data, b"move".to_vec());
    assert_eq!(&buf[..], &[9, 9, 9][..]);
}

#[test]
fn decode_two_frames_in_a_row() {
    let mut bytes = frame(1, 1, b"ab");
    bytes.extend(frame(2, 2, b"cde"));
    let mut buf = BytesMut::from(&bytes[..]);
    let a = Message::decode(&mut buf).unwrap();
    let b = Message::decode(&mut buf).unwrap();
    assert_eq!((a.msg_id, a.session_id, a.data), (1, 1, b"ab".to_vec()));
    assert_eq!((b.msg_id, b.session_id, b.data), (2, 2, b"cde".to_vec()));
    assert!(buf.is_empty());
}

#[test]
fn decode_waits_for_a_whole_header() {
    let f = frame(1, 1, b"ab");
    let mut buf = BytesMut::from(&f[..5]);
    assert!(Message::decode(&mut buf).is_none());
    assert_eq!(&buf[..], &f[..5]);
}

#[test]
fn decode_waits_for_a_whole_body() {
    let f = frame(1, 1, b"abcdef");
    for n in 8..f.len() {
        let mut buf = BytesMut::from(&f[..n]);
        assert!(Message::decode(&mut buf).is_none());
        assert_eq!(&buf[..], &f[..n]);
    }
}

#[test]
fn decode_rejects_wrong_magic_without_consuming() {
    let mut f = frame(1, 1, b"ab");
    f[0] = 0x00;
    let mut buf = BytesMut::from(&f[..]);
    assert!(Message::decode(&mut buf).is_none());
    assert_eq!(&buf[..], &f[..]);
}

#[test]
fn decode_drops_header_of_too_large_frame() {
    let mut f = vec![0x73, 0x68, 0, 1];
    f.extend_from_slice(&(65537u32).to_be_bytes());
    f.extend_from_slice(&[1, 2, 3]);
    let mut buf = BytesMut::from(&f[..]);
    assert!(Message::decode(&mut buf).is_none());
    assert_eq!(&buf[..], &[1, 2, 3][..]);
}

#[test]
fn decode_accepts_frame_with_one_data_byte() {
    let bytes = [0x73u8, 0x68, 0x00, 0x01, 0x00, 0x00, 0x00, 0x09, 0, 0, 0, 0, 0, 0, 0, 0x07, 0x41];
    let mut buf = BytesMut::from(&bytes[..]);
    let m = Message::decode(&mut buf).unwrap();
    assert_eq!(m.msg_id, 1);
    assert_eq!(m.session_id, 7);
    assert_eq!(m.data, vec![0x41]);
    assert!(buf.is_empty());
}

#[test]
fn one_data_byte_message_round_trips() {
    let m = Message::new(4, 5, b"x".to_vec());
    let mut buf = m.encode();
    buf.extend_from_slice(&[7]);
    let d = Message::decode(&mut buf).unwrap();
    assert_eq!(d.msg_id, 4);
    assert_eq!(d.session_id, 5);
    assert_eq!(d.data, b"x".to_vec());
    assert_eq!(&buf[..], &[7][..]);
}

#[test]
fn decode_consumes_frame_without_data() {
    let mut bytes = frame(4, 5, b"");
    bytes.extend_from_slice(&[7]);
    let mut buf = BytesMut::from(&bytes[..]);
    assert!(Message::decode(&mut buf).is_none());
    assert_eq!(&buf[..], &[7][..]);
}

#[test]
fn decode_accepts_largest_body() {
    let data = vec![0xab; MAX_MSG_SIZE - 8];
    let mut buf = BytesMut::from(&frame(2, 3, &data)[..]);
    let m = Message::decode(&mut buf).unwrap();
    assert_eq!(m.data.len(), MAX_MSG_SIZE - 8);
    assert!(buf.is_empty());
}

#[test]
fn hex_dump_formats_bytes() {
    assert_eq!(hex_dump(&[]), "");
    assert_eq!(hex_dump(&[0xff]), "ff");
    assert_eq!(hex_dump(&[0x73, 0x68, 0x0a]), "73 68 0a");
    assert_eq!(hex_dump(&[0, 1, 0x10, 0xab]), "00 01 10 ab");
}

#[test]
fn codec_waits_for_header_and_body() {
    let mut codec = MessageCodec;
    let f = frame(1, 1, b"abc");
    let mut buf = BytesMut::from(&f[..3]);
    assert!(matches!(codec.decode(&mut buf), Ok(None)));
    assert_eq!(&buf[..], &f[..3]);
    let mut buf = BytesMut::from(&f[..12]);
    assert!(matches!(codec.decode(&mut buf), Ok(None)));
    assert_eq!(&buf[..], &f[..12]);
    assert!(buf.capacity() >= f.len());
}

#[test]
fn codec_decodes_whole_frame() {
    let mut codec = MessageCodec;
    let mut buf = BytesMut::from(&frame(20, 8, b"attack")[..]);
    match codec.decode(&mut buf) {
        Ok(Some(m)) => {
            assert_eq!(m.msg_id, 20);
            assert_eq!(m.session_id, 8);
            assert_eq!(m.data, b"attack".to_vec());
        }
        _ => panic!("expected a message"),
    }
    assert!(buf.is_empty());
}

#[test]
fn codec_refuses_too_large_frame() {
    let mut codec = MessageCodec;
    let mut f = vec![0x73, 0x68, 0, 1];
    f.extend_from_slice(&(70000u32).to_be_bytes());
    let mut buf = BytesMut::from(&f[..]);
    match codec.decode(&mut buf) {
        Err(ShellError::Codec(text)) => assert_eq!(text, "Message too large: 70000 bytes"),
        _ => panic!("expected a codec error"),
    }
    assert_eq!(&buf[..], &f[..]);
}

#[test]
fn codec_encode_writes_data_verbatim() {
    let mut codec = MessageCodec;
    let mut dst = BytesMut::from(&b"ab"[..]);
    assert!(codec.encode(Message::new(0, 0, b"cd".to_vec()), &mut dst).is_ok());
    assert_eq!(&dst[..], b"abcd");
}

#[test]
fn encode_message_freezes_the_frame() {
    let m = Message::new(2, 11, b"ok".to_vec());
    let b = encode_message(&m);
    assert_eq!(&b[..], &frame(2, 11, b"ok")[..]);
}

#[test]
fn message_clone_is_equal() {
    let m = Message::new(5, 6, vec![7, 8]);
    let c = m.clone();
    assert_eq!((c.msg_id, c.session_id, c.data), (5, 6, vec![7, 8]));
}

#[test]
fn codec_encode_checked_appends_data() {
    let mut codec = MessageCodec;
    let mut buf = BytesMut::from(&b"xy"[..]);
    assert!(codec.encode_checked(Message::new(1, 2, b"abc".to_vec()), &mut buf));
    assert_eq!(&buf[..], b"xyabc");
}
