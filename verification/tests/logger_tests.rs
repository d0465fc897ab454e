use atlas_ground::logger::{ErrorStats, LogEvent, LogTracker, LoggerStep, LoggerUpdate, SequenceError};
use atlas_ground::packet::{DecodeError, Packet};

fn pkt(seq: u16) -> Result<Packet, DecodeError> {
    Ok(Packet { message_id: 1, sequence: seq, timestamp: seq as u32 * 100, payload: vec![seq as u8] })
}

fn err_update(detail: &str) -> LoggerStep {
    LoggerStep::Update(LoggerUpdate::Error { kind: "...".to_string(), detail: detail.to_string() })
}

#[test]
fn events_of_decode_errors() {
    assert_eq!(
        LogEvent::from(&DecodeError::PacketTooShort { min_len: 13, actual_len: 1 }),
        LogEvent::PacketTooShort
    );
    assert_eq!(LogEvent::from(&DecodeError::InvalidSync { found: [0, 0] }), LogEvent::InvalidSync);
    assert_eq!(
        LogEvent::from(&DecodeError::LengthMismatch { expected_len: 1, actual_len: 2 }),
        LogEvent::LengthMismatch
    );
    assert_eq!(
        LogEvent::from(&DecodeError::CrcMismatch { expected_crc: 1, actual_crc: 2 }),
        LogEvent::CrcMismatch
    );
}

#[test]
fn event_text_is_its_debug_form() {
    for e in [
        LogEvent::PacketTooShort,
        LogEvent::InvalidSync,
        LogEvent::LengthMismatch,
        LogEvent::CrcMismatch,
        LogEvent::Sequence(SequenceError::Skipped),
        LogEvent::Sequence(SequenceError::Duplicate),
        LogEvent::Sequence(SequenceError::OutOfOrder),
    ] {
        assert_eq!(e.text(), format!("{e:?}"));
    }
}

#[test]
fn error_stats_count_each_kind() {
    let mut s = ErrorStats::new();
    s.record(&LogEvent::CrcMismatch);
    s.record(&LogEvent::CrcMismatch);
    s.record(&LogEvent::Sequence(SequenceError::Duplicate));
    assert_eq!(s.crc_mismatch, 2);
    assert_eq!(s.duplicate, 1);
    assert_eq!(s.packet_too_short + s.invalid_sync + s.length_mismatch + s.skipped + s.out_of_order, 0);
}

#[test]
fn error_stats_breakdown() {
    let mut s = ErrorStats::new();
    s.record(&LogEvent::InvalidSync);
    let expected = format!(
        "Packet too short: {}\n
            Invalid sync: {}\n
            Length mismatch: {}\n
            CRC mismatch: {}\n
            Skipped: {}\n
            Duplicate: {}\n
            Out of order: {}",
        0, 1, 0, 0, 0, 0, 0
    );
    assert_eq!(s.to_string(), expected);
}

#[test]
fn simulated_session_updates() {
    let mut t = LogTracker::new();
    let steps = t.observe_simulated(pkt(0));
    assert_eq!(
        steps,
        vec![
            LoggerStep::Update(LoggerUpdate::FrameReceived { seq: 0, timestamp: 0, payload: vec![0] }),
            LoggerStep::Update(LoggerUpdate::Stats { ok: 1, dropped: 0 }),
        ]
    );
    let steps = t.observe_simulated(pkt(3));
    assert_eq!(
        steps[1],
        LoggerStep::Event(LogEvent::Sequence(SequenceError::Skipped), "Skipped/dropped packet(s): expected 1, got 3".to_string())
    );
    assert_eq!(steps[2], err_update("Skipped/dropped packet(s): expected 1, got 3"));
    assert_eq!(steps[3], LoggerStep::Update(LoggerUpdate::Stats { ok: 2, dropped: 2 }));
    let steps = t.observe_simulated(pkt(3));
    assert_eq!(steps[2], err_update("Duplicate packet: expected 4, got 3"));
    let steps = t.observe_simulated(pkt(1));
    assert_eq!(
        steps[1],
        LoggerStep::Event(LogEvent::Sequence(SequenceError::OutOfOrder), "Out-of-order packet: expected 4, got 1".to_string())
    );
    assert_eq!(steps[2], err_update("Out of order packet: expected 4, got 1"));
    let steps = t.observe_simulated(Err(DecodeError::InvalidSync { found: [0, 85] }));
    assert_eq!(
        steps,
        vec![
            LoggerStep::Event(LogEvent::InvalidSync, "InvalidSync { found: [0, 85] }".to_string()),
            err_update("InvalidSync { found: [0, 85] }"),
            LoggerStep::Update(LoggerUpdate::Stats { ok: 2, dropped: 3 }),
        ]
    );
    assert_eq!(t.expected_seq, Some(5));
    assert_eq!(t.stats.skipped + t.stats.duplicate + t.stats.out_of_order + t.stats.invalid_sync, 4);
}

#[test]
fn live_session_keeps_expected_number_after_gap() {
    let mut t = LogTracker::new();
    t.observe_live(pkt(0));
    let steps = t.observe_live(pkt(5));
    assert_eq!(
        steps,
        vec![LoggerStep::Event(LogEvent::Sequence(SequenceError::Skipped), "Skipped/dropped packet(s): expected 1, got 5".to_string())]
    );
    assert_eq!(t.expected_seq, Some(1));
    assert_eq!((t.ok, t.dropped), (2, 4));
    let steps = t.observe_live(pkt(0));
    assert_eq!(
        steps,
        vec![LoggerStep::Event(LogEvent::Sequence(SequenceError::Duplicate), "duplicate packet: expected 1, got 0".to_string())]
    );
}

#[test]
fn session_summary() {
    let mut t = LogTracker::new();
    t.observe_simulated(pkt(0));
    t.observe_simulated(Err(DecodeError::CrcMismatch { expected_crc: 1, actual_crc: 2 }));
    let breakdown = t.stats.to_string();
    assert_eq!(
        t.summary("SIMULATION"),
        format!("\nSIMULATION RESULTS:\nTotal frames: 2\nSuccessful frames: 1\nFailed frames: 1\nBreakdown: {breakdown}\n")
    );
}
