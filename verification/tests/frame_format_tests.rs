use atlas_ground::packet::{
    check_framing, crc16_ccitt_false, decode_checked_frame, decode_packet, encode_packet,
    seal_frame, unsealed_frame_of, DecodeError, Packet, CRC_LEN, FIXED_FIELDS_LEN, MIN_FRAME_LEN,
    SYNC_WORD,
};

fn reference_crc(data: &[u8]) -> u16 {
    let mut crc: u16 = 0xFFFF;
    for &byte in data {
        crc ^= (byte as u16) << 8;
        for _ in 0..8 {
            crc = if (crc & 0x8000) != 0 { (crc << 1) ^ 0x1021 } else { crc << 1 };
        }
    }
    crc
}

fn sample(payload: Vec<u8>) -> Packet {
    Packet { message_id: 0x05, sequence: 0xFFFE, timestamp: 0xFFFF_FFFF, payload }
}

#[test]
fn frame_constants_match_the_protocol() {
    assert_eq!(SYNC_WORD, [0xAA, 0x55]);
    assert_eq!(FIXED_FIELDS_LEN, 9);
    assert_eq!(CRC_LEN, 2);
    assert_eq!(MIN_FRAME_LEN, 13);
}

#[test]
fn crc_wrapper_differs_from_identity() {
    // The CRC of two bytes is not those two bytes.
    assert_eq!(crc16_ccitt_false(&[0x12, 0x34]), reference_crc(&[0x12, 0x34]));
    assert_ne!(crc16_ccitt_false(&[0x12, 0x34]), 0x1234);
}

#[test]
fn encode_then_decode_gives_the_packet_back() {
    for len in [0usize, 1, 10, 256, 300] {
        let packet = sample((0..len).map(|i| (i * 7) as u8).collect());
        let frame = encode_packet(&packet);
        assert_eq!(frame.len(), MIN_FRAME_LEN + len);
        assert_eq!(decode_packet(&frame), Ok(packet));
    }
}

#[test]
fn empty_payload_frame_is_thirteen_bytes() {
    let packet = Packet { message_id: 0x02, sequence: 1, timestamp: 2, payload: vec![] };
    let frame = encode_packet(&packet);
    let body = [0x02, 0x00, 0x00, 0x00, 0x01, 0x00, 0x00, 0x00, 0x02];
    let crc = reference_crc(&body);
    let mut expected = vec![0xAA, 0x55];
    expected.extend_from_slice(&body);
    expected.extend_from_slice(&crc.to_be_bytes());
    assert_eq!(frame, expected);
}

#[test]
fn unsealed_frame_and_seal_with_given_crc() {
    let packet = Packet { message_id: 0x01, sequence: 0x0102, timestamp: 0x03040506, payload: vec![9] };
    let unsealed = unsealed_frame_of(&packet);
    assert_eq!(unsealed, vec![0xAA, 0x55, 0x01, 0x00, 0x01, 0x01, 0x02, 0x03, 0x04, 0x05, 0x06, 9]);
    let sealed = seal_frame(unsealed.clone(), 0xBEEF);
    let mut expected = unsealed;
    expected.extend_from_slice(&[0xBE, 0xEF]);
    assert_eq!(sealed, expected);
}

#[test]
fn decoder_reports_too_short_first() {
    assert_eq!(
        decode_packet(&[0x00, 0x00, 0x00]),
        Err(DecodeError::PacketTooShort { min_len: 13, actual_len: 3 })
    );
    assert_eq!(decode_packet(&[]), Err(DecodeError::PacketTooShort { min_len: 13, actual_len: 0 }));
}

#[test]
fn decoder_checks_sync_before_length() {
    let mut frame = encode_packet(&sample(vec![1, 2, 3]));
    frame[1] = 0x54;
    frame[4] = 0x09;
    assert_eq!(decode_packet(&frame), Err(DecodeError::InvalidSync { found: [0xAA, 0x54] }));
}

#[test]
fn decoder_checks_length_before_crc() {
    let mut frame = encode_packet(&sample(vec![1, 2, 3]));
    frame.push(0);
    assert_eq!(
        decode_packet(&frame),
        Err(DecodeError::LengthMismatch { expected_len: 16, actual_len: 17 })
    );
}

#[test]
fn decoder_reports_both_crcs() {
    let mut frame = encode_packet(&sample(vec![1, 2, 3]));
    let good = reference_crc(&frame[2..frame.len() - 2]);
    let n = frame.len();
    frame[n - 2] = 0x00;
    frame[n - 1] = 0x01;
    assert_eq!(
        decode_packet(&frame),
        Err(DecodeError::CrcMismatch { expected_crc: 0x0001, actual_crc: good })
    );
}

#[test]
fn framing_check_and_decode_with_given_crc() {
    let frame = vec![0xAA, 0x55, 0x07, 0x00, 0x01, 0x12, 0x34, 0x00, 0x00, 0x01, 0x00, 0x42, 0xCA, 0xFE];
    assert_eq!(check_framing(&frame), Ok(()));
    assert_eq!(
        decode_checked_frame(&frame, 0xCAFE),
        Ok(Packet { message_id: 0x07, sequence: 0x1234, timestamp: 0x100, payload: vec![0x42] })
    );
    assert_eq!(
        decode_checked_frame(&frame, 0xCAFF),
        Err(DecodeError::CrcMismatch { expected_crc: 0xCAFE, actual_crc: 0xCAFF })
    );
    assert_eq!(
        check_framing(&frame[..12]),
        Err(DecodeError::PacketTooShort { min_len: 13, actual_len: 12 })
    );
}
