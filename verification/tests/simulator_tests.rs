use atlas_ground::packet::{decode_packet, encode_packet, DecodeError, Packet};
use atlas_ground::simulator::{
    corruption_for, delay_ms, draw_corruption, draw_damage_kind, draw_delay_ms, draw_random_payload,
    random_payload_step, telemetry_payload, Corruption, Simulator,
};

#[test]
fn telemetry_payload_fields() {
    assert_eq!(
        telemetry_payload(0, 0),
        vec![0x01, 0x00, 245, 0x0E, 0x74, 0x03, 0x84, 0x1F, 0x00, 0x00]
    );
    let p = telemetry_payload(17, 70_000);
    let temp = i16::from_be_bytes([p[1], p[2]]);
    let volt = u16::from_be_bytes([p[3], p[4]]);
    let light = u16::from_be_bytes([p[5], p[6]]);
    assert_eq!(temp, 245 + 17 % 6);
    assert_eq!(volt, 3700 - (17 % 12) * 4);
    assert_eq!(light, 900 + (70_000u32 as u16) % 180);
}

#[test]
fn delays() {
    assert_eq!(delay_ms(-30), 70);
    assert_eq!(delay_ms(30), 130);
    assert_eq!(delay_ms(-99), 1);
    assert_eq!(delay_ms(-100), 1);
    let mut rng = rand::rng();
    for _ in 0..50 {
        let d = draw_delay_ms(&mut rng);
        assert!((70..=130).contains(&d));
    }
}

#[test]
fn corruption_choices() {
    assert_eq!(corruption_for(4, 1, 1), Corruption::Clean);
    assert_eq!(corruption_for(5, 1, 0), Corruption::BadSync);
    assert_eq!(corruption_for(5, 2, 1), Corruption::Dropped);
    assert_eq!(corruption_for(5, 2, 2), Corruption::Duplicated);
    assert_eq!(corruption_for(5, 2, 3), Corruption::Delayed);
    assert_eq!(corruption_for(5, 3, 0), Corruption::BadCrc);
    assert_eq!(corruption_for(5, 4, 0), Corruption::BadLength);
    let mut rng = rand::rng();
    for _ in 0..50 {
        let _ = draw_corruption(&mut rng);
        assert!((0..=4).contains(&draw_damage_kind(&mut rng)));
        assert!(draw_random_payload(&mut rng).len() <= 5);
    }
}

#[test]
fn clean_step_sends_a_valid_telemetry_frame() {
    let mut sim = Simulator::new();
    let frames = sim.step(123, Corruption::Clean);
    assert_eq!(frames.len(), 1);
    assert_eq!(
        decode_packet(&frames[0]),
        Ok(Packet { message_id: 1, sequence: 0, timestamp: 123, payload: telemetry_payload(0, 123) })
    );
    assert_eq!(sim.seq, 1);
}

#[test]
fn damaged_frames_fail_to_decode() {
    let mut sim = Simulator::new();
    let f = sim.step(10, Corruption::BadSync);
    assert_eq!(decode_packet(&f[0]), Err(DecodeError::InvalidSync { found: [0x00, 0x55] }));
    let f = sim.step(20, Corruption::BadCrc);
    assert!(matches!(decode_packet(&f[0]), Err(DecodeError::CrcMismatch { .. })));
    let f = sim.step(30, Corruption::BadLength);
    assert_eq!(decode_packet(&f[0]), Err(DecodeError::LengthMismatch { expected_len: 13, actual_len: 23 }));
}

#[test]
fn sequence_damage() {
    let mut sim = Simulator::new();
    assert!(sim.step(1, Corruption::Dropped).is_empty());
    let dup = sim.step(2, Corruption::Duplicated);
    assert_eq!(dup.len(), 2);
    assert_eq!(dup[0], dup[1]);
    assert!(sim.step(3, Corruption::Delayed).is_empty());
    let out = sim.step(4, Corruption::Clean);
    assert_eq!(out.len(), 2);
    assert_eq!(decode_packet(&out[0]).unwrap().sequence, 3);
    assert_eq!(decode_packet(&out[1]).unwrap().sequence, 2);
    assert!(sim.step(5, Corruption::Delayed).is_empty());
    assert!(sim.step(6, Corruption::Delayed).is_empty());
    let rest = sim.finish();
    assert_eq!(rest.len(), 1);
    assert_eq!(decode_packet(&rest[0]).unwrap().sequence, 5);
    assert!(sim.finish().is_empty());
}

#[test]
fn random_payload_variant() {
    let payload = vec![1, 2, 3];
    let clean = encode_packet(&Packet { message_id: 1, sequence: 9, timestamp: 5, payload: payload.clone() });
    assert_eq!(random_payload_step(9, 5, payload.clone(), 0), (Some(clean.clone()), 10));
    assert_eq!(random_payload_step(9, 5, payload.clone(), 2), (None, 11));
    let (f, _) = random_payload_step(9, 5, payload.clone(), 4);
    let f = f.unwrap();
    assert_eq!(f[3], 0x10);
    assert_eq!(&f[4..], &clean[4..]);
}

#[test]
fn simulated_session_length() {
    let mut sim = Simulator::new();
    let mut sent = 0;
    while !sim.finished() {
        sent += sim.step(0, Corruption::Clean).len();
    }
    assert_eq!(sent, 1000);
    assert_eq!(atlas_ground::simulator::SIMULATED_PACKETS, 1000);
}

#[test]
fn delay_extremes() {
    assert_eq!(delay_ms(i64::MIN), 1);
    assert_eq!(delay_ms(i64::MAX - 100), i64::MAX as u64);
}

#[test]
fn a_full_run_sends_at_most_two_frames_per_packet() {
    for c in [Corruption::Duplicated, Corruption::Delayed, Corruption::Clean, Corruption::Dropped] {
        let mut sim = Simulator::new();
        let mut sent = 0usize;
        let mut t = 0u32;
        while !sim.finished() {
            let kind = if t % 3 == 0 { c } else { Corruption::Duplicated };
            sent += sim.step(t, kind).len();
            t += 1;
        }
        sent += sim.finish().len();
        assert_eq!(t, 1000);
        assert!(sent <= 2000);
    }
}
