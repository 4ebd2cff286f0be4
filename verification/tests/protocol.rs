use rtar::protocol::{
    decode_datagram, write_datagram, Codec, MediaKind, PacketHeader, ProtocolError,
    FLAG_DISCONTINUITY, HEADER_LEN, MAX_PAYLOAD_LEN,
};

const GOLDEN_PACKET: [u8; 34] = [
    0x4c, 0x41, 0x4c, 0x31, 0x01, 0x01, 0x01, 0x04, 0x01, 0x02, 0x03, 0x04, 0x11, 0x12, 0x13,
    0x14, 0x01, 0x02, 0x03, 0x04, 0x05, 0x06, 0x07, 0x08, 0x00, 0x02, 0x00, 0x00, 0x00, 0x01,
    0x00, 0x00, 0x34, 0x12,
];

fn golden_header() -> PacketHeader {
    PacketHeader {
        media_kind: MediaKind::Audio,
        codec: Codec::PcmS16Le,
        flags: FLAG_DISCONTINUITY,
        stream_id: 0x0102_0304,
        sequence: 0x1112_1314,
        timestamp_us: 0x0102_0304_0506_0708,
        fragment_index: 0,
        fragment_count: 1,
    }
}

#[test]
fn writes_stable_golden_packet() {
    let mut packet = Vec::new();
    write_datagram(golden_header(), &[0x34, 0x12], &mut packet).unwrap();
    assert_eq!(packet, GOLDEN_PACKET);
}

#[test]
fn reads_stable_golden_packet() {
    let (header, payload) = decode_datagram(&GOLDEN_PACKET).unwrap();
    assert_eq!(header, golden_header());
    assert_eq!(payload, [0x34, 0x12]);
}

#[test]
fn rejects_truncated_payload() {
    let error = decode_datagram(&GOLDEN_PACKET[..33]).unwrap_err();
    assert_eq!(
        error,
        ProtocolError::InvalidPayloadLength {
            declared: 2,
            actual: 1
        }
    );
}

#[test]
fn rejects_unknown_version() {
    let mut packet = GOLDEN_PACKET;
    packet[4] = 2;
    assert_eq!(
        decode_datagram(&packet).unwrap_err(),
        ProtocolError::UnsupportedVersion(2)
    );
}

#[test]
fn rejects_invalid_fragment_count() {
    let mut packet = GOLDEN_PACKET;
    packet[28..30].copy_from_slice(&0_u16.to_be_bytes());
    assert_eq!(
        decode_datagram(&packet).unwrap_err(),
        ProtocolError::InvalidFragment { index: 0, count: 0 }
    );
}

#[test]
fn rejects_payload_over_mtu_budget() {
    let error = golden_header().encode(MAX_PAYLOAD_LEN + 1).unwrap_err();
    assert_eq!(error, ProtocolError::PayloadTooLarge(MAX_PAYLOAD_LEN + 1));
}

#[test]
fn rejects_short_datagram() {
    assert_eq!(
        decode_datagram(&GOLDEN_PACKET[..31]).unwrap_err(),
        ProtocolError::DatagramTooShort(31)
    );
    assert_eq!(
        decode_datagram(&[]).unwrap_err(),
        ProtocolError::DatagramTooShort(0)
    );
}

#[test]
fn rejects_bad_magic() {
    let mut packet = GOLDEN_PACKET;
    packet[3] = b'2';
    assert_eq!(decode_datagram(&packet).unwrap_err(), ProtocolError::InvalidMagic);
}

#[test]
fn rejects_unknown_media_kind_and_codec() {
    let mut packet = GOLDEN_PACKET;
    packet[5] = 9;
    assert_eq!(
        decode_datagram(&packet).unwrap_err(),
        ProtocolError::UnknownMediaKind(9)
    );
    let mut packet = GOLDEN_PACKET;
    packet[6] = 5;
    assert_eq!(
        decode_datagram(&packet).unwrap_err(),
        ProtocolError::UnknownCodec(5)
    );
}

#[test]
fn rejects_oversized_declared_payload() {
    let mut header = golden_header();
    header.codec = Codec::Opus;
    let payload = vec![7u8; MAX_PAYLOAD_LEN + 1];
    let mut packet = Vec::new();
    // Encoding refuses it, so build the datagram by hand.
    let mut bytes = GOLDEN_PACKET[..HEADER_LEN].to_vec();
    let len = payload.len() as u16;
    bytes[24..26].copy_from_slice(&len.to_be_bytes());
    bytes.extend_from_slice(&payload);
    assert_eq!(
        decode_datagram(&bytes).unwrap_err(),
        ProtocolError::PayloadTooLarge(MAX_PAYLOAD_LEN + 1)
    );
    assert_eq!(
        write_datagram(header, &payload, &mut packet).unwrap_err(),
        ProtocolError::PayloadTooLarge(MAX_PAYLOAD_LEN + 1)
    );
}

#[test]
fn encode_rejects_fragment_index_past_count() {
    let mut header = golden_header();
    header.fragment_index = 2;
    header.fragment_count = 2;
    assert_eq!(
        header.encode(0).unwrap_err(),
        ProtocolError::InvalidFragment { index: 2, count: 2 }
    );
    let mut out = vec![1, 2, 3];
    assert!(write_datagram(header, &[], &mut out).is_err());
    assert_eq!(out, vec![1, 2, 3]);
}

#[test]
fn write_then_decode_round_trips() {
    let header = PacketHeader {
        media_kind: MediaKind::Heartbeat,
        codec: Codec::Json,
        flags: 0xff,
        stream_id: 0xdead_beef,
        sequence: u32::MAX,
        timestamp_us: u64::MAX - 1,
        fragment_index: 0x1234,
        fragment_count: 0xffff,
    };
    let payload: Vec<u8> = (0..=255u8).collect();
    let mut packet = vec![9, 9];
    write_datagram(header, &payload, &mut packet).unwrap();
    assert_eq!(packet.len(), HEADER_LEN + payload.len());
    let (decoded, body) = decode_datagram(&packet).unwrap();
    assert_eq!(decoded, header);
    assert_eq!(body, &payload[..]);
}

#[test]
fn encode_writes_every_field_big_endian() {
    let header = PacketHeader {
        media_kind: MediaKind::Video,
        codec: Codec::Hevc,
        flags: 3,
        stream_id: 0x0a0b_0c0d,
        sequence: 0x0102_0304,
        timestamp_us: 0x1122_3344_5566_7788,
        fragment_index: 1,
        fragment_count: 3,
    };
    let bytes = header.encode(0x0123).unwrap();
    assert_eq!(
        bytes,
        [
            0x4c, 0x41, 0x4c, 0x31, 1, 2, 3, 3, 0x0a, 0x0b, 0x0c, 0x0d, 1, 2, 3, 4, 0x11, 0x22,
            0x33, 0x44, 0x55, 0x66, 0x77, 0x88, 0x01, 0x23, 0, 1, 0, 3, 0, 0
        ]
    );
}

#[test]
fn decode_ignores_reserved_bytes() {
    let mut packet = GOLDEN_PACKET;
    packet[30] = 0xaa;
    packet[31] = 0xbb;
    let (header, payload) = decode_datagram(&packet).unwrap();
    assert_eq!(header, golden_header());
    assert_eq!(payload, [0x34, 0x12]);
}

#[test]
fn media_kind_and_codec_codes() {
    assert_eq!(MediaKind::try_from(1), Ok(MediaKind::Audio));
    assert_eq!(MediaKind::try_from(4), Ok(MediaKind::Heartbeat));
    assert_eq!(MediaKind::try_from(0), Err(ProtocolError::UnknownMediaKind(0)));
    assert_eq!(MediaKind::Control.code(), 3);
    assert_eq!(Codec::try_from(0), Ok(Codec::NoCodec));
    assert_eq!(Codec::try_from(2), Ok(Codec::Opus));
    assert_eq!(Codec::try_from(200), Err(ProtocolError::UnknownCodec(200)));
    assert_eq!(Codec::Json.code(), 4);
}

#[test]
fn decode_then_write_reproduces_datagram() {
    let (header, payload) = decode_datagram(&GOLDEN_PACKET).unwrap();
    let mut again = Vec::new();
    write_datagram(header, payload, &mut again).unwrap();
    assert_eq!(again, GOLDEN_PACKET);

    // With reserved bytes set, the rewritten datagram has them cleared.
    let mut packet = GOLDEN_PACKET;
    packet[30] = 0xaa;
    let (header, payload) = decode_datagram(&packet).unwrap();
    write_datagram(header, payload, &mut again).unwrap();
    assert_eq!(again, GOLDEN_PACKET);
}
