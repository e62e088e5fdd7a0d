use todero_protocol::wire::{
    MessageType, Tlv, WireError, WireFrame, HEADER_LEN, WIRE_VERSION_V3,
};

#[test]
fn roundtrip_msr_frame() {
    let frame = WireFrame::new(
        MessageType::Msr,
        0b0000_0011,
        0x0102_0304_0506_0708,
        vec![1, 2, 3, 4],
        vec![Tlv { kind: 1, value: vec![0x10, 0x11] }, Tlv { kind: 2, value: vec![0x20] }],
    );

    let encoded = frame.encode().expect("encode");
    let decoded = WireFrame::decode(&encoded).expect("decode");
    assert_eq!(decoded, frame);
}

#[test]
fn golden_vector_client_hello() {
    let frame = WireFrame::new(
        MessageType::ClientHello,
        0x00,
        0x1111_2222_3333_4444,
        vec![0xaa, 0xbb],
        vec![Tlv { kind: 0x09, value: vec![0x01, 0x02, 0x03] }],
    );
    let got = frame.encode().expect("encode");

    // version=03, type=01, flags=00, cid=1111222233334444,
    // payload_len=0002, tlv_len=0006, payload=aabb, tlv=09 0003 010203
    let expected_hex = "030100111122223333444400020006aabb090003010203";
    assert_eq!(hex_encode(&got), expected_hex);
}

#[test]
fn negotiation_vector_server_hello_with_capabilities() {
    let frame = WireFrame::new(
        MessageType::ServerHello,
        0x01,
        0xabab_cdcd_0102_0304,
        vec![0x01], // security mode selected
        vec![
            // capabilities bitmap
            Tlv { kind: 0x30, value: vec![0b0000_0111] },
            // timer negotiation hint blob (opaque at wire layer)
            Tlv {
                kind: 0x31,
                value: vec![0x00, 0x00, 0x3a, 0x98], // 15000 ms
            },
        ],
    );

    let encoded = frame.encode().expect("encode");
    let decoded = WireFrame::decode(&encoded).expect("decode");
    assert_eq!(decoded, frame);
}

#[test]
fn negotiation_vector_unknown_tlv_is_preserved() {
    let frame = WireFrame::new(
        MessageType::HelloAck,
        0,
        1,
        vec![],
        vec![Tlv { kind: 0xfe, value: vec![0xde, 0xad, 0xbe, 0xef] }],
    );
    let encoded = frame.encode().expect("encode");
    let decoded = WireFrame::decode(&encoded).expect("decode");
    assert_eq!(decoded.tlvs.len(), 1);
    assert_eq!(decoded.tlvs[0].kind, 0xfe);
    assert_eq!(decoded.tlvs[0].value, vec![0xde, 0xad, 0xbe, 0xef]);
}

#[test]
fn decode_rejects_invalid_version() {
    let mut bytes = vec![0u8; HEADER_LEN];
    bytes[0] = 0x01;
    assert_eq!(WireFrame::decode(&bytes), Err(WireError::UnsupportedVersion(0x01)));
}

#[test]
fn decode_rejects_truncated_tlv() {
    let frame = WireFrame::new(
        MessageType::Data,
        0,
        7,
        vec![1],
        vec![Tlv { kind: 1, value: vec![2, 3, 4] }],
    );
    let mut bytes = frame.encode().expect("encode");
    bytes.pop();
    assert!(matches!(WireFrame::decode(&bytes), Err(WireError::LengthMismatch { .. })));
}

#[test]
fn decode_rejects_unknown_message_type() {
    let mut bytes = vec![0u8; HEADER_LEN];
    bytes[0] = WIRE_VERSION_V3;
    bytes[1] = 0xfe;
    assert_eq!(WireFrame::decode(&bytes), Err(WireError::UnknownMessageType(0xfe)));
}

fn hex_encode(bytes: &[u8]) -> String {
    let mut out = String::with_capacity(bytes.len() * 2);
    for b in bytes {
        out.push(hex_char((b >> 4) & 0x0f));
        out.push(hex_char(b & 0x0f));
    }
    out
}

fn hex_char(v: u8) -> char {
    match v {
        0..=9 => (b'0' + v) as char,
        10..=15 => (b'a' + (v - 10)) as char,
        _ => '?',
    }
}

#[test]
fn message_types_have_their_bytes() {
    let all = [
        (MessageType::ClientHello, 0x01),
        (MessageType::ServerHello, 0x02),
        (MessageType::HelloAck, 0x03),
        (MessageType::Msr, 0x10),
        (MessageType::RequestRange, 0x11),
        (MessageType::Data, 0x12),
        (MessageType::Fragment, 0x13),
        (MessageType::Error, 0x7e),
        (MessageType::Close, 0x7f),
    ];
    for (message_type, byte) in all {
        assert_eq!(message_type.as_u8(), byte);
        assert_eq!(MessageType::from_u8(byte), Ok(message_type));
    }
    assert_eq!(MessageType::from_u8(0x04), Err(WireError::UnknownMessageType(0x04)));
}

#[test]
fn encode_refuses_what_does_not_fit() {
    let frame = |payload: Vec<u8>, tlvs: Vec<Tlv>| {
        WireFrame::new(MessageType::Data, 0, 1, payload, tlvs)
    };
    let tlv = |len: usize| Tlv { kind: 1, value: vec![0; len] };
    assert_eq!(
        frame(vec![0; 65_537], Vec::new()).encode(),
        Err(WireError::PayloadTooLarge(65_537))
    );
    assert_eq!(
        frame(Vec::new(), (0..65).map(|_| tlv(0)).collect()).encode(),
        Err(WireError::TooManyTlvs(65))
    );
    assert_eq!(frame(Vec::new(), vec![tlv(2049)]).encode(), Err(WireError::TlvTooLarge(2049)));
    assert_eq!(
        frame(Vec::new(), (0..40).map(|_| tlv(2048)).collect()).encode(),
        Err(WireError::TlvBlockTooLarge(40 * 2051))
    );
    let mut other = frame(Vec::new(), Vec::new());
    other.version = 9;
    assert_eq!(other.encode(), Err(WireError::UnsupportedVersion(9)));
}

#[test]
fn decode_refuses_what_is_cut_or_broken() {
    assert_eq!(WireFrame::decode(&[3, 1]), Err(WireError::Truncated));
    let mut bytes = vec![0u8; HEADER_LEN];
    bytes[0] = WIRE_VERSION_V3;
    bytes[1] = 0x10;
    bytes[14] = 2;
    bytes.extend_from_slice(&[1, 0]);
    assert_eq!(WireFrame::decode(&bytes), Err(WireError::MalformedTlv));
    bytes[14] = 4;
    assert_eq!(
        WireFrame::decode(&bytes),
        Err(WireError::LengthMismatch { remaining: 2, expected: 4 })
    );
    bytes[14] = 3;
    bytes.truncate(HEADER_LEN);
    bytes.extend_from_slice(&[1, 0xff, 0xff]);
    assert_eq!(WireFrame::decode(&bytes), Err(WireError::TlvTooLarge(65_535)));
    todero_protocol::wire::fuzz_decode(&bytes);
}

#[test]
fn longest_payload_is_encoded_but_not_read_back() {
    let longest = WireFrame::new(MessageType::Data, 0, 1, vec![7; 65_536], Vec::new());
    let bytes = longest.encode().expect("encode");
    assert_eq!(
        WireFrame::decode(&bytes),
        Err(WireError::LengthMismatch { remaining: 65_536, expected: 0 })
    );
    let long = WireFrame::new(MessageType::Data, 0, 1, vec![7; 65_535], Vec::new());
    assert_eq!(WireFrame::decode(&long.encode().expect("encode")), Ok(long));
}

#[test]
fn wire_errors_speak() {
    assert_eq!(WireError::Truncated.message(), "input is truncated");
    assert_eq!(WireError::UnsupportedVersion(0x1f).message(), "unsupported version: 0x1f");
    assert_eq!(WireError::UnknownMessageType(0xfe).message(), "unknown message type: 0xfe");
    assert_eq!(WireError::PayloadTooLarge(7).message(), "payload too large: 7");
    assert_eq!(WireError::TooManyTlvs(65).message(), "too many TLVs: 65");
    assert_eq!(WireError::TlvTooLarge(2049).message(), "TLV too large: 2049");
    assert_eq!(WireError::TlvBlockTooLarge(70_000).message(), "TLV block too large: 70000");
    assert_eq!(WireError::MalformedTlv.message(), "malformed TLV");
    assert_eq!(
        WireError::LengthMismatch { remaining: 1, expected: 2 }.message(),
        "length mismatch (remaining=1, expected=2)"
    );
}
