use atlas_ground::packet::{encode_packet, DecodeError, Packet};
use atlas_ground::stream::{
    describe_decode_error, message_for_packet, BackendMessage, FrameExtractor, StreamAction,
    StreamStats,
};

fn packet(id: u8, seq: u16, payload: Vec<u8>) -> Packet {
    Packet { message_id: id, sequence: seq, timestamp: 1000 + seq as u32, payload }
}

fn frame(id: u8, seq: u16, payload: Vec<u8>) -> Vec<u8> {
    encode_packet(&packet(id, seq, payload))
}

fn error(kind: &str, detail: &str) -> BackendMessage {
    BackendMessage::Error { kind: kind.to_string(), detail: detail.to_string() }
}

fn stats(ok: u32, dropped: u32) -> BackendMessage {
    BackendMessage::Stats { ok, dropped }
}

#[test]
fn decode_errors_read_like_debug() {
    let errors = [
        DecodeError::PacketTooShort { min_len: 13, actual_len: 5 },
        DecodeError::InvalidSync { found: [0, 85] },
        DecodeError::LengthMismatch { expected_len: 17, actual_len: 16 },
        DecodeError::CrcMismatch { expected_crc: 1, actual_crc: 65535 },
    ];
    for e in errors {
        assert_eq!(describe_decode_error(&e), format!("{e:?}"));
    }
}

#[test]
fn packet_messages_by_id() {
    assert_eq!(
        message_for_packet(&packet(1, 3, vec![9, 8])),
        BackendMessage::FrameReceived { seq: 3, timestamp: 1003, payload: vec![9, 8] }
    );
    assert_eq!(message_for_packet(&packet(3, 0, vec![0x06])), BackendMessage::Ack { code: 6 });
    assert_eq!(message_for_packet(&packet(4, 0, vec![0x02, 1])), BackendMessage::CommandResponse { code: 2 });
    assert_eq!(message_for_packet(&packet(5, 0, vec![0x08])), BackendMessage::Event { code: 8 });
    assert_eq!(message_for_packet(&packet(3, 0, vec![])), error("Protocol", "ACK packet missing payload"));
    assert_eq!(
        message_for_packet(&packet(4, 0, vec![])),
        error("Protocol", "Command response packet missing payload")
    );
    assert_eq!(message_for_packet(&packet(5, 0, vec![])), error("Protocol", "Event packet missing payload"));
    assert_eq!(message_for_packet(&packet(0x2A, 0, vec![])), error("Protocol", "Unsupported message id 0x2A"));
}

#[test]
fn in_order_packets_are_counted() {
    let mut s = StreamStats::new();
    for seq in 10..13u16 {
        let msgs = s.process_frame(&frame(1, seq, vec![]));
        assert_eq!(msgs.len(), 2);
        assert_eq!(msgs[1], stats((seq - 9) as u32, 0));
    }
    assert_eq!(s.expected_seq, Some(13));
}

#[test]
fn duplicate_packet_is_reported_and_not_counted() {
    let mut s = StreamStats::new();
    s.process_frame(&frame(1, 4, vec![]));
    let msgs = s.process_frame(&frame(1, 4, vec![]));
    assert_eq!(msgs[1], error("Sequence", "Duplicate packet: expected 5, got 4"));
    assert_eq!(msgs[2], stats(1, 0));
}

#[test]
fn gap_counts_the_missing_packets() {
    let mut s = StreamStats::new();
    s.process_frame(&frame(1, 1, vec![]));
    let msgs = s.process_frame(&frame(1, 5, vec![]));
    assert_eq!(msgs[1], error("Sequence", "Skipped/dropped packet(s): expected 2, got 5"));
    assert_eq!(msgs[2], stats(2, 3));
    assert_eq!(s.expected_seq, Some(6));
}

#[test]
fn out_of_order_packet_changes_nothing() {
    let mut s = StreamStats::new();
    s.process_frame(&frame(1, 10, vec![]));
    let msgs = s.process_frame(&frame(1, 3, vec![]));
    assert_eq!(msgs[1], error("Sequence", "Out of order packet: expected 11, got 3"));
    assert_eq!(msgs[2], stats(1, 0));
    assert_eq!(s.expected_seq, Some(11));
}

#[test]
fn sequence_numbers_wrap() {
    let mut s = StreamStats::new();
    s.process_frame(&frame(1, 65535, vec![]));
    assert_eq!(s.expected_seq, Some(0));
    let msgs = s.process_frame(&frame(1, 0, vec![]));
    assert_eq!(msgs, vec![BackendMessage::FrameReceived { seq: 0, timestamp: 1000, payload: vec![] }, stats(2, 0)]);
}

#[test]
fn decode_error_counts_as_dropped_and_advances() {
    let mut s = StreamStats::new();
    s.process_frame(&frame(1, 0, vec![]));
    let msgs = s.process_frame(&[0xAA, 0x55, 1]);
    assert_eq!(
        msgs,
        vec![error("DecodeError", "PacketTooShort { min_len: 13, actual_len: 3 }"), stats(1, 1)]
    );
    assert_eq!(s.expected_seq, Some(2));
    let msgs = s.process_frame(&frame(1, 2, vec![]));
    assert_eq!(msgs.len(), 2);
}

#[test]
fn counters_saturate() {
    let mut s = StreamStats { ok: u32::MAX, dropped: u32::MAX, expected_seq: None };
    let msgs = s.process_frame(&[0]);
    assert_eq!(msgs[1], stats(u32::MAX, u32::MAX));
}

#[test]
fn reset_keeps_counters() {
    let mut s = StreamStats { ok: 4, dropped: 2, expected_seq: Some(9) };
    s.reset_sequence_tracking();
    assert_eq!((s.ok, s.dropped, s.expected_seq), (4, 2, None));
}

#[test]
fn whole_frame_is_cut_out() {
    let mut e = FrameExtractor::new();
    let mut s = StreamStats::new();
    let f = frame(3, 1, vec![0x06]);
    let acts = e.push_bytes(&f, &mut s);
    assert_eq!(
        acts,
        vec![
            StreamAction::LogFrame(f.clone()),
            StreamAction::Send(BackendMessage::Ack { code: 6 }),
            StreamAction::Send(stats(1, 0)),
        ]
    );
    assert!(e.buffer.is_empty());
}

#[test]
fn frame_split_across_reads() {
    let mut e = FrameExtractor::new();
    let mut s = StreamStats::new();
    let f = frame(1, 0, vec![1, 2, 3]);
    assert!(e.push_bytes(&f[..5], &mut s).is_empty());
    assert!(e.push_bytes(&f[5..14], &mut s).is_empty());
    let acts = e.push_bytes(&f[14..], &mut s);
    assert_eq!(acts[0], StreamAction::LogFrame(f));
    assert_eq!(acts.len(), 3);
}

#[test]
fn stray_bytes_before_sync_are_dropped() {
    let mut e = FrameExtractor::new();
    let mut s = StreamStats::new();
    let f = frame(1, 0, vec![]);
    let mut bytes = vec![1, 2, 0xAA];
    bytes.extend_from_slice(&f);
    let acts = e.push_bytes(&bytes, &mut s);
    assert_eq!(acts[0], StreamAction::Send(error("InvalidSync", "Discarded 3 stray byte(s) before sync")));
    assert_eq!(acts[1], StreamAction::LogFrame(f));
    assert_eq!(acts.len(), 4);
}

#[test]
fn buffer_without_sync_keeps_trailing_first_sync_byte() {
    let mut e = FrameExtractor::new();
    let mut s = StreamStats::new();
    let acts = e.push_bytes(&[1, 2, 0xAA], &mut s);
    assert_eq!(
        acts,
        vec![StreamAction::Send(error("InvalidSync", "Discarded buffered bytes while searching for sync"))]
    );
    assert_eq!(e.buffer, vec![0xAA]);
    let acts = e.push_bytes(&[1, 2], &mut s);
    assert_eq!(acts.len(), 1);
    assert!(e.buffer.is_empty());
}

#[test]
fn single_byte_waits() {
    let mut e = FrameExtractor::new();
    let mut s = StreamStats::new();
    assert!(e.push_bytes(&[7], &mut s).is_empty());
    assert_eq!(e.buffer, vec![7]);
}

#[test]
fn oversized_length_skips_the_sync_word() {
    let mut e = FrameExtractor::new();
    let mut s = StreamStats::new();
    let mut bytes = vec![0xAA, 0x55, 0x01, 0x01, 0x01, 0, 0, 0, 0, 0, 0, 0, 0];
    let f = frame(1, 0, vec![]);
    bytes.extend_from_slice(&f);
    let acts = e.push_bytes(&bytes, &mut s);
    assert_eq!(acts[0], StreamAction::Send(error("LengthMismatch", "Declared payload too large: 257 bytes")));
    assert_eq!(acts[1], StreamAction::Send(error("InvalidSync", "Discarded 11 stray byte(s) before sync")));
    assert_eq!(acts[2], StreamAction::LogFrame(f));
}

#[test]
fn corrupted_frame_is_logged_then_reported() {
    let mut e = FrameExtractor::new();
    let mut s = StreamStats::new();
    let mut f = frame(1, 0, vec![5]);
    let n = f.len();
    f[n - 1] ^= 0xFF;
    let acts = e.push_bytes(&f, &mut s);
    assert_eq!(acts[0], StreamAction::LogFrame(f));
    match &acts[1] {
        StreamAction::Send(BackendMessage::Error { kind, detail }) => {
            assert_eq!(kind, "DecodeError");
            assert!(detail.starts_with("CrcMismatch { expected_crc: "));
        }
        other => panic!("unexpected {other:?}"),
    }
    assert_eq!(acts[2], StreamAction::Send(stats(0, 1)));
}

#[test]
fn error_and_link_state_log_lines() {
    assert_eq!(error("Sequence", "x").log_line(), Some("[Sequence] x".to_string()));
    assert_eq!(
        BackendMessage::LinkState { state: "CONNECTED".to_string(), detail: "connected to COM7".to_string() }.log_line(),
        Some("[LinkState:CONNECTED] connected to COM7".to_string())
    );
    assert_eq!(stats(1, 2).log_line(), None);
    assert_eq!(BackendMessage::Ack { code: 6 }.log_line(), None);
}

#[test]
fn any_split_of_valid_frames_gives_the_same_result() {
    let mut stream = Vec::new();
    for seq in 0..4u16 {
        stream.extend_from_slice(&frame(1, seq, vec![seq as u8; seq as usize * 3]));
    }
    let mut whole_e = FrameExtractor::new();
    let mut whole_s = StreamStats::new();
    let whole = whole_e.push_bytes(&stream, &mut whole_s);
    for chunk in [1usize, 2, 5, 13, 17] {
        let mut e = FrameExtractor::new();
        let mut s = StreamStats::new();
        let mut acts = Vec::new();
        for piece in stream.chunks(chunk) {
            acts.extend(e.push_bytes(piece, &mut s));
            assert!(e.buffer.len() <= 268);
        }
        assert_eq!(acts, whole);
        assert_eq!(s, whole_s);
        assert!(e.buffer.is_empty());
    }
}
