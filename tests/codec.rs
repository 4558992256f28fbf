use user_rust::attr::{decode_attributes, encode_attributes, find_attribute, Attribute, MAX_ATTR_VALUE_LEN};
use user_rust::error::NlError;
use user_rust::frame::{decode_genl_message, decode_response, encode_message, split_frames, Frame};

fn attr(t: u16, v: &[u8]) -> Attribute {
    Attribute { attr_type: t, value: v.to_vec() }
}

#[test]
fn encode_single_attribute_exact_bytes() {
    let b = encode_attributes(&vec![Attribute::from_str_value(1, "hi")]).unwrap();
    assert_eq!(b, vec![7, 0, 1, 0, b'h', b'i', 0, 0]);
}

#[test]
fn encode_empty_value_has_no_padding() {
    let b = encode_attributes(&vec![attr(9, &[])]).unwrap();
    assert_eq!(b, vec![4, 0, 9, 0]);
}

#[test]
fn encode_rejects_oversized_value() {
    let big = vec![0u8; MAX_ATTR_VALUE_LEN + 1];
    let r = encode_attributes(&vec![attr(1, &big)]);
    assert!(matches!(r, Err(NlError::Encoding)));
}

#[test]
fn encode_accepts_largest_value() {
    let big = vec![7u8; MAX_ATTR_VALUE_LEN];
    let b = encode_attributes(&vec![attr(3, &big)]).unwrap();
    assert_eq!(b.len(), 65536);
    assert_eq!(&b[0..4], &[0xff, 0xff, 3, 0]);
    let back = decode_attributes(&b).unwrap();
    assert_eq!(back.len(), 1);
    assert_eq!(back[0].value, big);
}

#[test]
fn attributes_round_trip() {
    let attrs = vec![attr(1, b"a"), attr(2, &[]), attr(1, b"hello"), attr(0x7fff, &[1, 2, 3, 4])];
    let b = encode_attributes(&attrs).unwrap();
    let back = decode_attributes(&b).unwrap();
    assert_eq!(back.len(), attrs.len());
    for (x, y) in back.iter().zip(attrs.iter()) {
        assert_eq!(x.attr_type, y.attr_type);
        assert_eq!(x.value, y.value);
    }
}

#[test]
fn attribute_headers_start_on_four_byte_boundaries() {
    let attrs = vec![attr(1, b"abc"), attr(2, b"de"), attr(3, b"f"), attr(4, b"ghij")];
    let b = encode_attributes(&attrs).unwrap();
    let mut off = 0usize;
    for a in &attrs {
        assert_eq!(off % 4, 0);
        let len = u16::from_le_bytes([b[off], b[off + 1]]) as usize;
        let t = u16::from_le_bytes([b[off + 2], b[off + 3]]);
        assert_eq!(len, a.value.len() + 4);
        assert_eq!(t, a.attr_type);
        off += (len + 3) / 4 * 4;
    }
    assert_eq!(off, b.len());
}

#[test]
fn decode_truncated_attribute() {
    assert!(matches!(decode_attributes(&[8, 0, 1, 0, 1, 2]), Err(NlError::TruncatedAttribute)));
    assert!(matches!(decode_attributes(&[8, 0]), Err(NlError::TruncatedAttribute)));
}

#[test]
fn decode_malformed_attribute() {
    assert!(matches!(decode_attributes(&[3, 0, 1, 0]), Err(NlError::MalformedAttribute)));
}

#[test]
fn decode_accepts_missing_final_padding() {
    let back = decode_attributes(&[5, 0, 2, 0, 42]).unwrap();
    assert_eq!(back.len(), 1);
    assert_eq!(back[0].attr_type, 2);
    assert_eq!(back[0].value, vec![42]);
}

#[test]
fn find_attribute_returns_first_match() {
    let attrs = vec![attr(2, b"x"), attr(1, b"first"), attr(1, b"second")];
    assert_eq!(find_attribute(&attrs, 1), Some(1));
    assert_eq!(find_attribute(&attrs, 5), None);
}

#[test]
fn string_value_strips_one_terminator() {
    let a = Attribute::from_str_value(1, "hello");
    assert_eq!(a.value, b"hello\0".to_vec());
    assert_eq!(a.string_value().unwrap(), "hello");
    assert_eq!(attr(1, b"ab\0\0").string_value().unwrap(), "ab\0");
    assert_eq!(attr(1, b"plain").string_value().unwrap(), "plain");
}

#[test]
fn string_value_rejects_invalid_utf8() {
    assert!(matches!(attr(1, &[0xff, 0xfe, 0]).string_value(), Err(NlError::InvalidString)));
}

#[test]
fn message_length_field_matches_buffer() {
    let attrs = vec![attr(1, b"xyz")];
    let b = encode_message(0x1c, 5, 7, 99, 1, 1, &attrs).unwrap();
    assert_eq!(b.len(), 28);
    assert_eq!(u32::from_le_bytes([b[0], b[1], b[2], b[3]]) as usize, b.len());
    assert_eq!(&b[4..20], &[0x1c, 0, 5, 0, 7, 0, 0, 0, 99, 0, 0, 0, 1, 1, 0, 0]);
}

#[test]
fn message_round_trip() {
    let attrs = vec![attr(1, b"hello\0"), attr(2, &[1, 2])];
    let b = encode_message(0x20, 1, 3, 4, 2, 9, &attrs).unwrap();
    let m = decode_genl_message(&b).unwrap();
    assert_eq!((m.msg_type, m.flags, m.seq, m.port, m.command, m.version), (0x20, 1, 3, 4, 2, 9));
    assert_eq!(m.attrs.len(), 2);
    assert_eq!(m.attrs[1].value, vec![1, 2]);
}

#[test]
fn decode_short_header() {
    assert!(matches!(decode_response(&[0u8; 10]), Err(NlError::ShortHeader)));
}

#[test]
fn decode_length_mismatch() {
    let mut b = encode_message(0x20, 0, 0, 0, 1, 1, &vec![]).unwrap();
    b.push(0);
    assert!(matches!(decode_response(&b), Err(NlError::LengthMismatch)));
}

#[test]
fn decode_short_error_body() {
    let mut b = vec![16, 0, 0, 0, 2, 0, 0, 0];
    b.extend_from_slice(&[0u8; 8]);
    assert!(matches!(decode_response(&b), Err(NlError::ShortErrorBody)));
}

#[test]
fn decode_done_frame() {
    let mut b = vec![20, 0, 0, 0, 3, 0, 2, 0];
    b.extend_from_slice(&[0u8; 12]);
    assert!(matches!(decode_response(&b), Ok(Frame::Done)));
}

#[test]
fn error_frame_echoes_command() {
    let req = encode_message(0x20, 1, 5, 6, 2, 1, &vec![attr(1, b"m\0")]).unwrap();
    let mut b = Vec::new();
    b.extend_from_slice(&((20 + req.len()) as u32).to_le_bytes());
    b.extend_from_slice(&[2, 0, 0, 0]);
    b.extend_from_slice(&5u32.to_le_bytes());
    b.extend_from_slice(&6u32.to_le_bytes());
    b.extend_from_slice(&(-95i32).to_le_bytes());
    b.extend_from_slice(&req);
    match decode_response(&b) {
        Ok(Frame::Error(e)) => {
            assert_eq!(e.code, -95);
            assert_eq!(e.echoed.command, 2);
            assert_eq!(e.echoed.attrs[0].value, b"m\0".to_vec());
        }
        _ => panic!("expected an error frame"),
    }
}

#[test]
fn split_frames_of_one_datagram() {
    let a = encode_message(0x20, 2, 1, 0, 1, 1, &vec![attr(1, b"abc")]).unwrap();
    let b = encode_message(0x20, 2, 1, 0, 1, 1, &vec![attr(1, b"de")]).unwrap();
    let mut dgram = a.clone();
    dgram.extend_from_slice(&b);
    let frames = split_frames(&dgram).unwrap();
    assert_eq!(frames, vec![a, b]);
    assert!(matches!(split_frames(&[1, 2, 3]), Err(NlError::ShortHeader)));
    assert!(matches!(split_frames(&[40, 0, 0, 0, 0, 0, 0, 0, 0, 0, 0, 0, 0, 0, 0, 0]), Err(NlError::LengthMismatch)));
}
