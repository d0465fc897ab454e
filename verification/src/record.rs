//! Session recordings (`.atl` files): each frame is stored behind its length
//! as a 32-bit little-endian number. Also the bookkeeping of a replay.

use crate::packet::{result_view, DecodeError, Packet, PacketView};
use vstd::prelude::*;
use vstd::slice::slice_to_vec;

verus! {

/// Little-endian bytes of a 32-bit value.
pub open spec fn le32(v: u32) -> Seq<u8> {
    seq![
        (v % 256) as u8,
        ((v / 256) % 256) as u8,
        ((v / 0x1_0000) % 256) as u8,
        (v / 0x100_0000) as u8,
    ]
}

/// The 32-bit value of four little-endian bytes.
pub open spec fn from_le32(b: Seq<u8>) -> u32 {
    (b[0] + b[1] * 256 + b[2] * 0x1_0000 + b[3] * 0x100_0000) as u32
}

/// The record of a frame: its length (modulo 2^32, as a `u32` holds it)
/// followed by the frame itself.
pub open spec fn frame_record(frame: Seq<u8>) -> Seq<u8> {
    le32((frame.len() % 0x1_0000_0000) as u32) + frame
}

/// The record that stores a frame in a session recording.
pub fn log_record(frame: &[u8]) -> (r: Vec<u8>)
    ensures
        r@ == frame_record(frame@),
{
    let len: u32 = (frame.len() as u64 % 0x1_0000_0000u64) as u32;
    let mut r: Vec<u8> = Vec::with_capacity(4);
    r.push((len % 256) as u8);
    r.push(((len / 256) % 256) as u8);
    r.push(((len / 0x1_0000) % 256) as u8);
    r.push((len / 0x100_0000) as u8);
    let mut body = slice_to_vec(frame);
    r.append(&mut body);
    assert(r@ =~= frame_record(frame@));
    r
}

/// The length a record's four-byte prefix announces.
pub fn record_length(prefix: [u8; 4]) -> (len: u32)
    ensures
        len == from_le32(prefix@),
{
    (prefix[0] as u32) + (prefix[1] as u32) * 256 + (prefix[2] as u32) * 0x1_0000 + (prefix[3] as u32) * 0x100_0000
}

/// Reading back the length of a frame's record gives the frame's length, for
/// every frame shorter than 2^32 bytes, and the frame follows the prefix.
pub proof fn lemma_record_roundtrip(frame: Seq<u8>)
    requires
        frame.len() < 0x1_0000_0000,
    ensures
        from_le32(frame_record(frame).take(4)) == frame.len(),
        frame_record(frame).skip(4) == frame,
{
    let v = frame.len() as u32;
    let r = frame_record(frame);
    let b0: int = (v % 256) as int;
    let b1: int = ((v / 256) % 256) as int;
    let b2: int = ((v / 0x1_0000) % 256) as int;
    let b3: int = (v / 0x100_0000) as int;
    assert(b0 + b1 * 256 + b2 * 0x1_0000 + b3 * 0x100_0000 == v) by (nonlinear_arith)
        requires
            b0 == v % 256,
            b1 == (v / 256) % 256,
            b2 == (v / 0x1_0000) % 256,
            b3 == v / 0x100_0000,
            0 <= v,
    {
        assert(v == (v / 256) * 256 + v % 256);
        assert(v / 256 == ((v / 256) / 256) * 256 + (v / 256) % 256);
        assert((v / 256) / 256 == v / 0x1_0000);
        assert(v / 0x1_0000 == ((v / 0x1_0000) / 256) * 256 + (v / 0x1_0000) % 256);
        assert((v / 0x1_0000) / 256 == v / 0x100_0000);
    }
    assert(r.take(4)[0] == b0 && r.take(4)[1] == b1 && r.take(4)[2] == b2);
    assert(v / 0x100_0000 < 256);
    assert(r.take(4)[3] == b3);
    assert(r.skip(4) =~= frame);
}

/// What a replay keeps track of: packets accepted, packets lost, the
/// sequence number expected next, and the timestamp of the last packet.
pub struct ReplayTracker {
    pub ok: i32,
    pub dropped: u16,
    pub expected_seq: Option<u16>,
    pub last_timestamp: Option<u32>,
}

/// The tracker after one decoding result of a replay, and how long to wait
/// (in recorded milliseconds) before the packet: the time since the last
/// packet, or nothing for the first one. Duplicates and out-of-order numbers
/// change nothing; a gap counts as lost; an error counts one lost frame and
/// advances the expected number.
pub open spec fn replay_step(t: ReplayTracker, r: Result<PacketView, DecodeError>) -> (ReplayTracker, Option<u64>) {
    match r {
        Ok(p) => {
            let wait = match t.last_timestamp {
                Some(prev) => Some(p.timestamp.saturating_sub(prev) as u64),
                None => None,
            };
            let t1 = ReplayTracker { last_timestamp: Some(p.timestamp), ..t };
            let s = p.sequence;
            let t2 = match t1.expected_seq {
                None => ReplayTracker { ok: (t1.ok + 1) as i32, expected_seq: Some(s.wrapping_add(1)), ..t1 },
                Some(e) => if s == e {
                    ReplayTracker { ok: (t1.ok + 1) as i32, expected_seq: Some(e.wrapping_add(1)), ..t1 }
                } else if s == e.wrapping_sub(1) {
                    t1
                } else if s > e {
                    ReplayTracker {
                        ok: (t1.ok + 1) as i32,
                        dropped: (t1.dropped + (s - e)) as u16,
                        expected_seq: Some(s.wrapping_add(1)),
                        ..t1
                    }
                } else {
                    t1
                },
            };
            (t2, wait)
        },
        Err(_) => (
            ReplayTracker {
                dropped: (t.dropped + 1) as u16,
                expected_seq: match t.expected_seq {
                    Some(x) => Some(x.wrapping_add(1)),
                    None => None,
                },
                ..t
            },
            None,
        ),
    }
}

/// The counters of a replay do not overflow on this decoding result.
pub open spec fn replay_fits(t: ReplayTracker, r: Result<PacketView, DecodeError>) -> bool {
    match r {
        Ok(p) => match t.expected_seq {
            None => t.ok < i32::MAX,
            Some(e) => if p.sequence == e {
                t.ok < i32::MAX
            } else if p.sequence == e.wrapping_sub(1) {
                true
            } else if p.sequence > e {
                t.ok < i32::MAX && t.dropped + (p.sequence - e) <= u16::MAX
            } else {
                true
            },
        },
        Err(_) => t.dropped < u16::MAX,
    }
}

impl ReplayTracker {
    /// Nothing replayed yet.
    pub fn new() -> (t: Self)
        ensures
            t.ok == 0 && t.dropped == 0 && t.expected_seq is None && t.last_timestamp is None,
    {
        ReplayTracker { ok: 0, dropped: 0, expected_seq: None, last_timestamp: None }
    }

    /// Whether the counters can take this decoding result without overflow.
    pub fn fits(&self, result: &Result<Packet, DecodeError>) -> (r: bool)
        ensures
            r == replay_fits(*self, result_view(*result)),
    {
        match result {
            Ok(p) => match self.expected_seq {
                None => self.ok < i32::MAX,
                Some(e) => if p.sequence == e {
                    self.ok < i32::MAX
                } else if p.sequence == e.wrapping_sub(1) {
                    true
                } else if p.sequence > e {
                    self.ok < i32::MAX && (p.sequence - e) <= u16::MAX - self.dropped
                } else {
                    true
                },
            },
            Err(_) => self.dropped < u16::MAX,
        }
    }

    /// Accounts for one decoding result; returns how long to wait before the
    /// packet, in recorded milliseconds.
    pub fn observe(&mut self, result: &Result<Packet, DecodeError>) -> (wait: Option<u64>)
        requires
            replay_fits(*old(self), result_view(*result)),
        ensures
            (*final(self), wait) == replay_step(*old(self), result_view(*result)),
    {
        match result {
            Ok(packet) => {
                let wait = match self.last_timestamp {
                    Some(prev) => Some(packet.timestamp.saturating_sub(prev) as u64),
                    None => None,
                };
                self.last_timestamp = Some(packet.timestamp);
                let s = packet.sequence;
                match self.expected_seq {
                    None => {
                        self.ok = self.ok + 1;
                        self.expected_seq = Some(s.wrapping_add(1));
                    },
                    Some(e) => {
                        if s == e {
                            self.ok = self.ok + 1;
                            self.expected_seq = Some(e.wrapping_add(1));
                        } else if s == e.wrapping_sub(1) {
                        } else if s > e {
                            self.ok = self.ok + 1;
                            self.dropped = self.dropped + s.wrapping_sub(e);
                            self.expected_seq = Some(s.wrapping_add(1));
                        } else {
                        }
                    },
                }
                wait
            },
            Err(_) => {
                match self.expected_seq {
                    Some(x) => {
                        self.expected_seq = Some(x.wrapping_add(1));
                    },
                    None => {},
                }
                self.dropped = self.dropped + 1;
                None
            },
        }
    }
}

/// The strict check of the standalone replay tool: a packet passes only if
/// it carries the number expected next; any other number, and any decoding
/// error, fails.
pub struct StrictReplay {
    pub pass: i32,
    pub fail: i32,
    pub seq: u16,
}

/// The strict check after one decoding result.
pub open spec fn strict_step(t: StrictReplay, r: Result<PacketView, DecodeError>) -> StrictReplay {
    match r {
        Ok(p) => if p.sequence != t.seq {
            StrictReplay { fail: (t.fail + 1) as i32, seq: (p.sequence + 1) as u16, ..t }
        } else {
            StrictReplay { pass: (t.pass + 1) as i32, seq: (t.seq + 1) as u16, ..t }
        },
        Err(_) => StrictReplay { fail: (t.fail + 1) as i32, ..t },
    }
}

/// The counters of the strict check do not overflow on this decoding result.
pub open spec fn strict_fits(t: StrictReplay, r: Result<PacketView, DecodeError>) -> bool {
    match r {
        Ok(p) => if p.sequence != t.seq {
            t.fail < i32::MAX && p.sequence < u16::MAX
        } else {
            t.pass < i32::MAX && t.seq < u16::MAX
        },
        Err(_) => t.fail < i32::MAX,
    }
}

impl StrictReplay {
    /// Nothing checked yet; the first packet must carry number 0.
    pub fn new() -> (t: Self)
        ensures
            t.pass == 0 && t.fail == 0 && t.seq == 0,
    {
        StrictReplay { pass: 0, fail: 0, seq: 0 }
    }

    /// Whether the counters can take this decoding result without overflow.
    pub fn fits(&self, result: &Result<Packet, DecodeError>) -> (r: bool)
        ensures
            r == strict_fits(*self, result_view(*result)),
    {
        match result {
            Ok(p) => if p.sequence != self.seq {
                self.fail < i32::MAX && p.sequence < u16::MAX
            } else {
                self.pass < i32::MAX && self.seq < u16::MAX
            },
            Err(_) => self.fail < i32::MAX,
        }
    }

    /// Checks one decoding result; for a packet out of order returns the
    /// number now expected.
    pub fn observe(&mut self, result: &Result<Packet, DecodeError>) -> (reset_to: Option<u16>)
        requires
            strict_fits(*old(self), result_view(*result)),
        ensures
            *final(self) == strict_step(*old(self), result_view(*result)),
            reset_to == (match result_view(*result) {
                Ok(p) => if p.sequence != old(self).seq { Some(final(self).seq) } else { None },
                Err(_) => None,
            }),
    {
        match result {
            Ok(packet) => {
                if packet.sequence != self.seq {
                    self.fail = self.fail + 1;
                    self.seq = packet.sequence + 1;
                    Some(self.seq)
                } else {
                    self.pass = self.pass + 1;
                    self.seq = self.seq + 1;
                    None
                }
            },
            Err(_) => {
                self.fail = self.fail + 1;
                None
            },
        }
    }
}

} // verus!
