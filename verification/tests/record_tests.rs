use atlas_ground::packet::{DecodeError, Packet};
use atlas_ground::record::{log_record, record_length, ReplayTracker, StrictReplay};

fn pkt(seq: u16, ts: u32) -> Result<Packet, DecodeError> {
    Ok(Packet { message_id: 1, sequence: seq, timestamp: ts, payload: vec![] })
}

#[test]
fn record_is_little_endian_length_then_frame() {
    assert_eq!(log_record(&[9, 8, 7]), vec![3, 0, 0, 0, 9, 8, 7]);
    let long = vec![0x11u8; 300];
    let r = log_record(&long);
    assert_eq!(&r[..4], &[0x2C, 0x01, 0, 0]);
    assert_eq!(&r[4..], &long[..]);
    assert_eq!(log_record(&[]), vec![0, 0, 0, 0]);
}

#[test]
fn record_length_reads_the_prefix_back() {
    assert_eq!(record_length([0x2C, 0x01, 0, 0]), 300);
    assert_eq!(record_length([0xFF, 0xFF, 0xFF, 0xFF]), u32::MAX);
    let r = log_record(&[1; 23]);
    assert_eq!(record_length([r[0], r[1], r[2], r[3]]), 23);
}

#[test]
fn replay_waits_for_recorded_gaps() {
    let mut t = ReplayTracker::new();
    assert_eq!(t.observe(&pkt(0, 100)), None);
    assert_eq!(t.observe(&pkt(1, 250)), Some(150));
    assert_eq!(t.observe(&pkt(2, 200)), Some(0));
    assert_eq!((t.ok, t.dropped, t.expected_seq), (3, 0, Some(3)));
}

#[test]
fn replay_counts_gaps_and_errors() {
    let mut t = ReplayTracker::new();
    t.observe(&pkt(0, 0));
    t.observe(&pkt(4, 0));
    assert_eq!((t.ok, t.dropped, t.expected_seq), (2, 3, Some(5)));
    t.observe(&pkt(4, 0));
    t.observe(&pkt(1, 0));
    assert_eq!((t.ok, t.dropped), (2, 3));
    assert_eq!(t.observe(&Err(DecodeError::InvalidSync { found: [0, 0] })), None);
    assert_eq!((t.dropped, t.expected_seq), (4, Some(6)));
}

#[test]
fn strict_replay() {
    let mut t = StrictReplay::new();
    assert_eq!(t.observe(&pkt(0, 0)), None);
    assert_eq!(t.observe(&pkt(3, 0)), Some(4));
    assert_eq!(t.observe(&pkt(4, 0)), None);
    assert_eq!(t.observe(&Err(DecodeError::InvalidSync { found: [0, 0] })), None);
    assert_eq!((t.pass, t.fail, t.seq), (2, 2, 5));
}
