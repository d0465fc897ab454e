//! The telemetry simulator: synthetic telemetry packets at about 10 Hz, one
//! in ten of them damaged on purpose so that the receive path has errors to
//! find.

use crate::packet::{be16, decode_frame, encode_packet, encoded_frame, lemma_decode_inverts_encode, DecodeError, Packet, PacketView, MIN_FRAME_LEN};
use rand::rngs::ThreadRng;
use rand::{Rng, RngExt};
use vstd::prelude::*;

verus! {

#[verifier::external_type_specification]
#[verifier::external_body]
pub struct ExThreadRng(ThreadRng);

/// Draws a number from `low..=high` with `RngExt::random_range`, which, as its
/// documentation says, samples a value of the range; the range must not be
/// empty, or it panics. Which value comes out is left to chance.
#[verifier::external_body]
fn random_in(rng: &mut ThreadRng, low: i64, high: i64) -> (r: i64)
    requires
        low <= high,
    ensures
        low <= r <= high,
{
    rng.random_range(low..=high)
}

/// Fills `n` bytes with `Rng::fill_bytes`. Their values are left to chance;
/// only their number is claimed.
#[verifier::external_body]
fn random_bytes(rng: &mut ThreadRng, n: usize) -> (v: Vec<u8>)
    ensures
        v@.len() == n,
{
    let mut v = vec![0u8; n];
    rng.fill_bytes(&mut v);
    v
}

/// The telemetry payload of a simulated packet: NORMAL mode, a temperature of
/// 24.5 degrees C plus a tenth of a degree per step of the sequence number modulo 6,
/// a voltage of 3700 mV minus 4 mV per step modulo 12, a light reading of 900
/// plus the low 16 bits of the timestamp modulo 180, all status bits set and
/// no faults.
pub open spec fn telemetry_payload_of(sequence: u16, timestamp_ms: u32) -> Seq<u8> {
    seq![0x01u8] + be16((245 + sequence % 6) as u16) + be16((3700 - (sequence % 12) * 4) as u16)
        + be16((900 + (timestamp_ms % 0x1_0000) % 180) as u16) + seq![0x1Fu8] + be16(0)
}

fn push_be16(v: &mut Vec<u8>, x: u16)
    ensures
        final(v)@ == old(v)@ + be16(x),
{
    v.push((x / 256) as u8);
    v.push((x % 256) as u8);
}

/// Builds the telemetry payload of a simulated packet.
pub fn telemetry_payload(sequence: u16, timestamp_ms: u32) -> (payload: Vec<u8>)
    ensures
        payload@ == telemetry_payload_of(sequence, timestamp_ms),
        payload@.len() == 10,
{
    let mode = 0x01u8;
    let temperature_deci_c: u16 = 245u16 + sequence % 6;
    let voltage_mv: u16 = 3700u16.saturating_sub((sequence % 12) * 4);
    let light_raw: u16 = 900u16 + ((timestamp_ms % 0x1_0000) as u16) % 180;
    let status_flags = 0x1Fu8;
    let fault_flags = 0u16;
    let mut payload: Vec<u8> = Vec::with_capacity(10);
    payload.push(mode);
    push_be16(&mut payload, temperature_deci_c);
    push_be16(&mut payload, voltage_mv);
    push_be16(&mut payload, light_raw);
    payload.push(status_flags);
    push_be16(&mut payload, fault_flags);
    assert(payload@ =~= telemetry_payload_of(sequence, timestamp_ms));
    payload
}

/// The pause before a packet: 100 ms plus the jitter, at least 1 ms.
pub open spec fn delay_for(jitter_ms: int) -> int {
    if 100 + jitter_ms > 1 {
        100 + jitter_ms
    } else {
        1
    }
}

/// The pause before a packet, from its jitter.
pub fn delay_ms(jitter_ms: i64) -> (ms: u64)
    requires
        jitter_ms <= i64::MAX - 100,
    ensures
        ms == delay_for(jitter_ms as int),
{
    let total: i64 = 100 + jitter_ms;
    if total > 1 {
        total as u64
    } else {
        1
    }
}

/// Draws the pause before the next packet: 100 ms, give or take 30 ms.
pub fn draw_delay_ms(rng: &mut ThreadRng) -> (ms: u64)
    ensures
        70 <= ms <= 130,
{
    let jitter = random_in(rng, -30, 30);
    delay_ms(jitter)
}

/// What happens to a simulated frame on its way out.
#[derive(Clone, Copy, Debug, PartialEq, Eq, Structural)]
pub enum Corruption {
    /// Sent as encoded.
    Clean,
    /// The first sync byte is zeroed.
    BadSync,
    /// Never sent: a sequence gap.
    Dropped,
    /// Sent twice: a duplicate.
    Duplicated,
    /// Held back and sent after the next frame: out of order.
    Delayed,
    /// The last CRC byte is zeroed.
    BadCrc,
    /// The low byte of the declared payload length is zeroed.
    BadLength,
}

/// The corruption chosen by the draws: a roll of 5 out of 0..=9 damages the
/// frame; the kind (1..=4) picks sync, sequence, CRC or length damage, and for
/// sequence damage the sub-choice (1..=3) picks a gap, a duplicate or a delay.
pub open spec fn corruption_of(roll: i64, kind: i64, sub: i64) -> Corruption {
    if roll != 5 {
        Corruption::Clean
    } else if kind == 1 {
        Corruption::BadSync
    } else if kind == 2 {
        if sub == 1 {
            Corruption::Dropped
        } else if sub == 2 {
            Corruption::Duplicated
        } else if sub == 3 {
            Corruption::Delayed
        } else {
            Corruption::Clean
        }
    } else if kind == 3 {
        Corruption::BadCrc
    } else if kind == 4 {
        Corruption::BadLength
    } else {
        Corruption::Clean
    }
}

/// The corruption chosen by a set of draws.
pub fn corruption_for(roll: i64, kind: i64, sub: i64) -> (c: Corruption)
    ensures
        c == corruption_of(roll, kind, sub),
{
    if roll != 5 {
        Corruption::Clean
    } else if kind == 1 {
        Corruption::BadSync
    } else if kind == 2 {
        if sub == 1 {
            Corruption::Dropped
        } else if sub == 2 {
            Corruption::Duplicated
        } else if sub == 3 {
            Corruption::Delayed
        } else {
            Corruption::Clean
        }
    } else if kind == 3 {
        Corruption::BadCrc
    } else if kind == 4 {
        Corruption::BadLength
    } else {
        Corruption::Clean
    }
}

/// The damage a set of draws chooses: a roll other than 5 leaves the frame
/// clean, and with a roll of 5 every kind of damage is chosen by exactly its
/// draws: sync, then a gap, a duplicate or a delay, then CRC, then length.
pub proof fn lemma_corruption_choices(roll: i64, kind: i64, sub: i64)
    ensures
        roll != 5 ==> corruption_of(roll, kind, sub) == Corruption::Clean,
        corruption_of(5, 1, sub) == Corruption::BadSync,
        corruption_of(5, 2, 1) == Corruption::Dropped,
        corruption_of(5, 2, 2) == Corruption::Duplicated,
        corruption_of(5, 2, 3) == Corruption::Delayed,
        corruption_of(5, 3, sub) == Corruption::BadCrc,
        corruption_of(5, 4, sub) == Corruption::BadLength,
        roll == 5 && 1 <= kind <= 4 && (kind == 2 ==> 1 <= sub <= 3) ==> corruption_of(roll, kind, sub) != Corruption::Clean,
{
}

/// Draws what happens to the next frame: the roll, then the kind only for a
/// roll of 5, then the sub-choice only for sequence damage.
pub fn draw_corruption(rng: &mut ThreadRng) -> (c: Corruption)
    ensures
        exists|roll: i64, kind: i64, sub: i64| 0 <= roll <= 9 && c == corruption_of(roll, kind, sub),
{
    let roll = random_in(rng, 0, 9);
    let mut kind: i64 = 0;
    let mut sub: i64 = 0;
    if roll == 5 {
        kind = random_in(rng, 1, 4);
        if kind == 2 {
            sub = random_in(rng, 1, 3);
        }
    }
    corruption_for(roll, kind, sub)
}

/// A frame as it leaves after the given damage.
pub open spec fn corrupted(f: Seq<u8>, c: Corruption) -> Seq<u8> {
    match c {
        Corruption::BadSync => f.update(0, 0),
        Corruption::BadCrc => f.update(f.len() - 1, 0),
        Corruption::BadLength => f.update(4, 0),
        _ => f,
    }
}

/// The simulated packet with a given sequence number and time.
pub open spec fn simulated_packet(sequence: u16, elapsed_ms: u32) -> PacketView {
    PacketView { message_id: 0x01, sequence, timestamp: elapsed_ms, payload: telemetry_payload_of(sequence, elapsed_ms) }
}

/// How many packets a simulated session sends.
pub const SIMULATED_PACKETS: u16 = 1000;

/// The simulator between two packets: the next sequence number and the frame
/// held back to be sent late, if any.
pub struct Simulator {
    pub seq: u16,
    pub held: Option<Vec<u8>>,
}

/// The held-back frame, as bytes.
pub open spec fn held_view(h: Option<Vec<u8>>) -> Option<Seq<u8>> {
    match h {
        Some(v) => Some(v@),
        None => None,
    }
}

/// The views of a list of frames.
pub open spec fn frames_view(v: Seq<Vec<u8>>) -> Seq<Seq<u8>> {
    v.map_values(|f: Vec<u8>| f@)
}

/// The held-back frame as a list of zero or one frames.
pub open spec fn held_list(h: Option<Seq<u8>>) -> Seq<Seq<u8>> {
    match h {
        Some(f) => seq![f],
        None => seq![],
    }
}

/// One step of the simulator: the frames sent, in order, and the frame held
/// back afterwards. A dropped frame is not sent and leaves the held frame
/// waiting; a delayed frame replaces the held one; otherwise the frame (twice
/// when duplicated) is sent, followed by the held frame.
pub open spec fn simulated_step(held: Option<Seq<u8>>, frame: Seq<u8>, c: Corruption) -> (Option<Seq<u8>>, Seq<Seq<u8>>) {
    match c {
        Corruption::Dropped => (held, seq![]),
        Corruption::Delayed => (Some(frame), seq![]),
        Corruption::Duplicated => (None, seq![frame, frame] + held_list(held)),
        _ => (None, seq![corrupted(frame, c)] + held_list(held)),
    }
}

impl Simulator {
    /// A simulator that starts at sequence number 0 with nothing held back.
    pub fn new() -> (s: Self)
        ensures
            s.seq == 0,
            s.held is None,
    {
        Simulator { seq: 0, held: None }
    }

    /// Whether the session has sent all its packets: one step per packet, so
    /// the sequence number counts them.
    pub fn finished(&self) -> (done: bool)
        ensures
            done == (self.seq >= SIMULATED_PACKETS),
    {
        self.seq >= SIMULATED_PACKETS
    }

    /// Builds the next telemetry frame at the given time since the start,
    /// applies the damage, and returns the frames to send, in order.
    pub fn step(&mut self, elapsed_ms: u32, corruption: Corruption) -> (frames: Vec<Vec<u8>>)
        requires
            old(self).seq < u16::MAX,
        ensures
            final(self).seq == old(self).seq + 1,
            ({
                let f = encoded_frame(simulated_packet(old(self).seq, elapsed_ms));
                let (h, out) = simulated_step(held_view(old(self).held), f, corruption);
                &&& held_view(final(self).held) == h
                &&& frames_view(frames@) == out
            }),
    {
        let seq = self.seq;
        let next = Packet { message_id: 0x01, sequence: seq, timestamp: elapsed_ms, payload: telemetry_payload(seq, elapsed_ms) };
        assert(next@ =~= simulated_packet(seq, elapsed_ms));
        self.seq = seq + 1;
        let mut frame = encode_packet(&next);
        let ghost f = frame@;
        let mut frames: Vec<Vec<u8>> = Vec::new();
        match corruption {
            Corruption::Dropped => {
                assert(frames_view(frames@) =~= seq![]);
                return frames;
            },
            Corruption::Delayed => {
                self.held = Some(frame);
                assert(frames_view(frames@) =~= seq![]);
                return frames;
            },
            Corruption::Duplicated => {
                let copy = vstd::slice::slice_to_vec(frame.as_slice());
                frames.push(copy);
            },
            Corruption::BadSync => {
                frame.set(0, 0);
            },
            Corruption::BadCrc => {
                let len = frame.len();
                frame.set(len - 1, 0);
            },
            Corruption::BadLength => {
                frame.set(4, 0);
            },
            Corruption::Clean => {},
        }
        assert(frame@ == corrupted(f, corruption));
        frames.push(frame);
        let held = self.held.take();
        match held {
            Some(h) => {
                frames.push(h);
            },
            None => {},
        }
        assert(frames_view(frames@) =~= simulated_step(held_view(old(self).held), f, corruption).1);
        frames
    }

    /// The frame still held back when the simulation ends, if any.
    pub fn finish(&mut self) -> (frames: Vec<Vec<u8>>)
        ensures
            frames_view(frames@) == held_list(held_view(old(self).held)),
            final(self).held is None,
            final(self).seq == old(self).seq,
    {
        let mut frames: Vec<Vec<u8>> = Vec::new();
        match self.held.take() {
            Some(h) => {
                frames.push(h);
            },
            None => {},
        }
        assert(frames_view(frames@) =~= held_list(held_view(old(self).held)));
        frames
    }
}

/// A run of simulator steps, each a frame and the damage drawn for it, from a
/// held-back frame: the frame held back at the end and all frames sent, in
/// order.
pub open spec fn simulated_run(held: Option<Seq<u8>>, steps: Seq<(Seq<u8>, Corruption)>) -> (Option<Seq<u8>>, Seq<Seq<u8>>)
    decreases steps.len(),
{
    if steps.len() == 0 {
        (held, seq![])
    } else {
        let (h, out) = simulated_step(held, steps[0].0, steps[0].1);
        let (h2, rest) = simulated_run(h, steps.drop_first());
        (h2, out + rest)
    }
}

/// A simulator step sends at most two frames: the new frame twice when it
/// is duplicated, else the new frame once and the frame held back, which it
/// then releases; a held frame that is kept or replaced is not sent.
pub proof fn lemma_step_budget(held: Option<Seq<u8>>, frame: Seq<u8>, c: Corruption)
    ensures
        simulated_step(held, frame, c).1.len() + held_list(simulated_step(held, frame, c).0).len()
            <= held_list(held).len() + 2,
{
}

/// However the frames are damaged, a simulation of `n` packets that starts
/// with nothing held back sends at most `2 * n` frames in all, the frame
/// still held back at the end included. With a thousand packets that is at
/// most two thousand frames.
pub proof fn lemma_run_frame_budget(steps: Seq<(Seq<u8>, Corruption)>)
    ensures
        simulated_run(None, steps).1.len() + held_list(simulated_run(None, steps).0).len() <= 2 * steps.len(),
{
    lemma_run_budget_from(None, steps);
}

proof fn lemma_run_budget_from(held: Option<Seq<u8>>, steps: Seq<(Seq<u8>, Corruption)>)
    ensures
        simulated_run(held, steps).1.len() + held_list(simulated_run(held, steps).0).len()
            <= held_list(held).len() + 2 * steps.len(),
    decreases steps.len(),
{
    if steps.len() > 0 {
        let (h, out) = simulated_step(held, steps[0].0, steps[0].1);
        lemma_step_budget(held, steps[0].0, steps[0].1);
        lemma_run_budget_from(h, steps.drop_first());
    }
}

/// What happens to a frame of the random-payload simulator: the same draw as
/// the telemetry simulator, but sequence damage drops the frame and skips a
/// sequence number, and length damage sets the high length byte to 0x10.
pub open spec fn random_payload_frame(f: Seq<u8>, kind: i64) -> Option<Seq<u8>> {
    if kind == 1 {
        Some(f.update(0, 0))
    } else if kind == 2 {
        None
    } else if kind == 3 {
        Some(f.update(f.len() - 1, 0))
    } else if kind == 4 {
        Some(f.update(3, 0x10))
    } else {
        Some(f)
    }
}

/// One packet of the random-payload simulator, given the damage kind (0 for
/// none): the frame to send, if any, and the next sequence number. Sequence
/// damage increments the sequence byte of the discarded frame in place, which
/// overflows when that byte is 0xFF.
pub fn random_payload_step(seq: u16, elapsed_ms: u32, payload: Vec<u8>, kind: i64) -> (r: (Option<Vec<u8>>, u16))
    requires
        payload@.len() <= 5,
        seq < u16::MAX,
        kind == 2 ==> seq + 2 <= u16::MAX && seq % 256 != 255,
    ensures
        ({
            let f = encoded_frame(PacketView { message_id: 0x01, sequence: seq, timestamp: elapsed_ms, payload: payload@ });
            &&& r.1 == (if kind == 2 { seq + 2 } else { seq + 1 })
            &&& match r.0 {
                Some(v) => random_payload_frame(f, kind) == Some(v@),
                None => random_payload_frame(f, kind) is None,
            }
        }),
{
    let next = Packet { message_id: 0x01, sequence: seq, timestamp: elapsed_ms, payload };
    let mut frame = encode_packet(&next);
    let next_seq = seq + 1;
    if kind == 1 {
        frame.set(0, 0);
    } else if kind == 2 {
        return (None, next_seq + 1);
    } else if kind == 3 {
        let len = frame.len();
        frame.set(len - 1, 0);
    } else if kind == 4 {
        frame.set(3, 0x10);
    }
    (Some(frame), next_seq)
}

/// Draws the payload of a random-payload packet: up to five random bytes.
pub fn draw_random_payload(rng: &mut ThreadRng) -> (payload: Vec<u8>)
    ensures
        payload@.len() <= 5,
{
    let n = random_in(rng, 0, 5);
    random_bytes(rng, n as usize)
}

/// Draws the damage kind of a random-payload packet: 0 for none, else 1..=4.
pub fn draw_damage_kind(rng: &mut ThreadRng) -> (kind: i64)
    ensures
        0 <= kind <= 4,
{
    let roll = random_in(rng, 0, 9);
    if roll == 5 {
        random_in(rng, 1, 4)
    } else {
        0
    }
}

/// Every undamaged frame of the telemetry simulator is a valid 23-byte frame
/// that decodes to the simulated telemetry packet.
pub proof fn lemma_clean_simulated_frame(sequence: u16, elapsed_ms: u32)
    ensures
        encoded_frame(simulated_packet(sequence, elapsed_ms)).len() == MIN_FRAME_LEN + 10,
        decode_frame(encoded_frame(simulated_packet(sequence, elapsed_ms)))
            == Ok::<PacketView, DecodeError>(simulated_packet(sequence, elapsed_ms)),
{
    lemma_decode_inverts_encode(simulated_packet(sequence, elapsed_ms));
}

} // verus!
