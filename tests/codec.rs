use mcrouter::capture::{CaptureStep, HandshakeCapture, MAX_HANDSHAKE_BYTES};
use mcrouter::codec::{decode_handshake, encode_disconnect, push_varint, read_varint, DecodeError, VarIntRead};

fn handshake_frame(host: &str, version: u64, port: u16, next: u64) -> Vec<u8> {
    let mut body = Vec::new();
    push_varint(&mut body, 0);
    push_varint(&mut body, version);
    push_varint(&mut body, host.len() as u64);
    body.extend_from_slice(host.as_bytes());
    body.push((port >> 8) as u8);
    body.push((port & 0xff) as u8);
    push_varint(&mut body, next);
    let mut frame = Vec::new();
    push_varint(&mut frame, body.len() as u64);
    frame.extend_from_slice(&body);
    frame
}

#[test]
fn varint_encodings() {
    let cases: Vec<(u64, Vec<u8>)> = vec![
        (0, vec![0x00]),
        (127, vec![0x7f]),
        (128, vec![0x80, 0x01]),
        (25565, vec![0xdd, 0xc7, 0x01]),
        (0xffff_ffff, vec![0xff, 0xff, 0xff, 0xff, 0x0f]),
    ];
    for (v, bytes) in cases {
        let mut out = Vec::new();
        push_varint(&mut out, v);
        assert_eq!(out, bytes);
    }
}

#[test]
fn varint_reads() {
    let b = [0xdd, 0xc7, 0x01, 0x07];
    assert!(matches!(read_varint(&b, 0, 4), VarIntRead::Value(25565, 3)));
    assert!(matches!(read_varint(&b, 3, 4), VarIntRead::Value(7, 4)));
    assert!(matches!(read_varint(&b, 0, 2), VarIntRead::Short));
    let long = [0x80, 0x80, 0x80, 0x80, 0x80, 0x01];
    assert!(matches!(read_varint(&long, 0, 6), VarIntRead::Bad));
}

#[test]
fn decodes_whole_handshake() {
    let f = handshake_frame("play.example.com", 763, 25565, 2);
    let (h, n) = decode_handshake(&f).unwrap();
    assert_eq!(n, f.len());
    assert_eq!(h.address, b"play.example.com".to_vec());
    assert_eq!(h.protocol_version, 763);
    assert_eq!(h.port, 25565);
    assert_eq!(h.next_state, 2);
}

#[test]
fn exact_handshake_bytes() {
    let f = handshake_frame("a", 4, 258, 1);
    assert_eq!(f, vec![0x07, 0x00, 0x04, 0x01, b'a', 0x01, 0x02, 0x01]);
}

#[test]
fn bytes_after_frame_are_not_consumed() {
    let mut f = handshake_frame("play.example.com", 763, 25565, 2);
    let len = f.len();
    f.extend_from_slice(&[0x05, 0x00, 0x03, b'b', b'o', b'b']);
    let (h, n) = decode_handshake(&f).unwrap();
    assert_eq!(n, len);
    assert_eq!(h.address, b"play.example.com".to_vec());
}

#[test]
fn partial_frames_need_more_data() {
    let f = handshake_frame("play.example.com", 763, 25565, 2);
    assert_eq!(decode_handshake(&[]).unwrap_err(), DecodeError::InsufficientData);
    for k in 1..f.len() {
        assert_eq!(decode_handshake(&f[..k]).unwrap_err(), DecodeError::InsufficientData);
    }
}

#[test]
fn wrong_packet_id_is_malformed() {
    let mut f = handshake_frame("x", 763, 25565, 2);
    f[1] = 0x01;
    assert_eq!(decode_handshake(&f).unwrap_err(), DecodeError::Malformed);
}

#[test]
fn overlong_length_is_malformed() {
    let b = [0x80, 0x80, 0x80, 0x80, 0x80, 0x01];
    assert_eq!(decode_handshake(&b).unwrap_err(), DecodeError::Malformed);
    let negative = [0xff, 0xff, 0xff, 0xff, 0x0f];
    assert_eq!(decode_handshake(&negative).unwrap_err(), DecodeError::Malformed);
}

#[test]
fn body_must_be_filled_exactly() {
    // Frame length one larger than the fields, with a stray byte inside.
    let f = vec![0x09, 0x00, 0x04, 0x01, b'a', 0x01, 0x02, 0x01, 0x00, 0x00];
    assert_eq!(decode_handshake(&f).unwrap_err(), DecodeError::Malformed);
    // Address longer than the body.
    let g = vec![0x07, 0x00, 0x04, 0x09, b'a', 0x01, 0x02, 0x01];
    assert_eq!(decode_handshake(&g).unwrap_err(), DecodeError::Malformed);
}

#[test]
fn split_reads_decode_as_one_read() {
    let mut f = handshake_frame("play.example.com", 763, 25565, 2);
    let len = f.len();
    f.extend_from_slice(&[0x01, 0x02, 0x03]);

    let mut whole = HandshakeCapture::new();
    let one = whole.feed(&f);
    let (h1, n1) = match one {
        CaptureStep::Ready(h, n) => (h, n),
        other => panic!("expected a handshake, got {:?}", other),
    };

    for split in [1usize, 2, 3, 5, 7] {
        let mut c = HandshakeCapture::new();
        let mut result = None;
        for chunk in f.chunks(split) {
            match c.feed(chunk) {
                CaptureStep::NeedMore => continue,
                CaptureStep::Ready(h, n) => {
                    result = Some((h, n));
                    break;
                }
                CaptureStep::Rejected => panic!("rejected"),
            }
        }
        let (h, n) = result.unwrap();
        assert_eq!(h, h1);
        assert_eq!(n, n1);
        assert_eq!(n, len);
        assert_eq!(&c.bytes()[..n], &f[..len]);
    }
}

#[test]
fn capture_gives_up_at_its_limit() {
    // A frame that announces 2000 bytes never completes within the limit.
    let mut c = HandshakeCapture::new();
    let mut first = Vec::new();
    push_varint(&mut first, 2000);
    first.push(0x00);
    assert!(matches!(c.feed(&first), CaptureStep::NeedMore));
    let rest = vec![0u8; MAX_HANDSHAKE_BYTES - first.len() - 1];
    assert!(matches!(c.feed(&rest), CaptureStep::NeedMore));
    assert_eq!(c.room(), 1);
    assert!(matches!(c.feed(&[0u8]), CaptureStep::Rejected));
}

#[test]
fn capture_rejects_garbage() {
    let mut c = HandshakeCapture::new();
    assert!(matches!(c.feed(&[0x03, 0x05, 0x00, 0x00]), CaptureStep::Rejected));
}

#[test]
fn disconnect_packet_bytes() {
    let p = encode_disconnect("Gateway refused connection");
    let text = b"\"Gateway refused connection\"";
    let mut expected = vec![30u8, 0x00, 28];
    expected.extend_from_slice(text);
    assert_eq!(p, expected);
}

#[test]
fn disconnect_text_is_escaped() {
    let p = encode_disconnect("a\"b\\c\n");
    let text = b"\"a\\\"b\\\\c\\u000a\"";
    let mut expected = vec![(text.len() + 2) as u8, 0x00, text.len() as u8];
    expected.extend_from_slice(text);
    assert_eq!(p, expected);
}
