//! The ATLAS binary frame: sync word, message id, payload length, sequence
//! counter, timestamp, payload and a CRC-16/CCITT-FALSE over message id
//! through payload. Multi-byte fields are big-endian.

use crc16::{State, CCITT_FALSE};
use vstd::prelude::*;
use vstd::slice::{slice_subrange, slice_to_vec};

verus! {

/// The two bytes that open every frame.
pub const SYNC_WORD: [u8; 2] = [0xAA, 0x55];

/// Message id, payload length, sequence counter and timestamp.
pub const FIXED_FIELDS_LEN: usize = 1 + 2 + 2 + 4;

/// Length of the trailing CRC.
pub const CRC_LEN: usize = 2;

/// Length of a frame with an empty payload.
pub const MIN_FRAME_LEN: usize = 2 + FIXED_FIELDS_LEN + CRC_LEN;

/// One bit of CRC-16/CCITT-FALSE: shift left, and where a one falls out, add
/// the polynomial 0x1021.
pub open spec fn crc_shift(crc: u16) -> u16 {
    if crc & 0x8000 != 0 {
        (crc << 1u16) ^ 0x1021u16
    } else {
        crc << 1u16
    }
}

/// CRC-16/CCITT-FALSE after one more byte: the byte enters the high half, then
/// eight bits are shifted out.
pub open spec fn crc_byte(crc: u16, b: u8) -> u16 {
    let c = crc ^ ((b as u16) << 8u16);
    crc_shift(crc_shift(crc_shift(crc_shift(crc_shift(crc_shift(crc_shift(crc_shift(c))))))))
}

/// The CRC-16/CCITT-FALSE of a byte sequence: polynomial 0x1021, initial value
/// 0xFFFF, bits not reflected, no final XOR.
#[verifier::opaque]
pub open spec fn ccitt_false_crc(data: Seq<u8>) -> u16
    decreases data.len(),
{
    if data.len() == 0 {
        0xFFFF
    } else {
        crc_byte(ccitt_false_crc(data.drop_last()), data.last())
    }
}

/// Computes the CRC-16/CCITT-FALSE of `data` with
/// `crc16::State::<CCITT_FALSE>::calculate`, which the crate defines by the
/// parameters `ccitt_false_crc` spells out (polynomial 0x1021, initial value
/// 0xFFFF, no reflection, no final XOR) and computes with a table.
#[verifier::external_body]
pub fn crc16_ccitt_false(data: &[u8]) -> (crc: u16)
    ensures
        crc == ccitt_false_crc(data@),
{
    State::<CCITT_FALSE>::calculate(data)
}

/// The CRC of no bytes is the initial value 0xFFFF.
pub proof fn lemma_crc_of_nothing()
    ensures
        ccitt_false_crc(Seq::<u8>::empty()) == 0xFFFF,
{
    reveal(ccitt_false_crc);
}

/// The standard check value: the CRC-16/CCITT-FALSE of the ASCII digits
/// "123456789" is 0x29B1.
pub proof fn lemma_crc_check_value()
    ensures
        ccitt_false_crc(seq![0x31u8, 0x32, 0x33, 0x34, 0x35, 0x36, 0x37, 0x38, 0x39]) == 0x29B1,
{
    let d = seq![0x31u8, 0x32, 0x33, 0x34, 0x35, 0x36, 0x37, 0x38, 0x39];
    reveal(ccitt_false_crc);
    assert(crc_byte(0xFFFF, 0x31) == 0xC782) by (bit_vector);
    assert(crc_byte(0xC782, 0x32) == 0x3DBA) by (bit_vector);
    assert(crc_byte(0x3DBA, 0x33) == 0x5BCE) by (bit_vector);
    assert(crc_byte(0x5BCE, 0x34) == 0x5349) by (bit_vector);
    assert(crc_byte(0x5349, 0x35) == 0x4560) by (bit_vector);
    assert(crc_byte(0x4560, 0x36) == 0x2EF4) by (bit_vector);
    assert(crc_byte(0x2EF4, 0x37) == 0x7718) by (bit_vector);
    assert(crc_byte(0x7718, 0x38) == 0xA12B) by (bit_vector);
    assert(crc_byte(0xA12B, 0x39) == 0x29B1) by (bit_vector);
    assert(ccitt_false_crc(d.take(0)) == 0xFFFF);
    assert(d.take(1).drop_last() =~= d.take(0));
    assert(ccitt_false_crc(d.take(1)) == 0xC782);
    assert(d.take(2).drop_last() =~= d.take(1));
    assert(ccitt_false_crc(d.take(2)) == 0x3DBA);
    assert(d.take(3).drop_last() =~= d.take(2));
    assert(ccitt_false_crc(d.take(3)) == 0x5BCE);
    assert(d.take(4).drop_last() =~= d.take(3));
    assert(ccitt_false_crc(d.take(4)) == 0x5349);
    assert(d.take(5).drop_last() =~= d.take(4));
    assert(ccitt_false_crc(d.take(5)) == 0x4560);
    assert(d.take(6).drop_last() =~= d.take(5));
    assert(ccitt_false_crc(d.take(6)) == 0x2EF4);
    assert(d.take(7).drop_last() =~= d.take(6));
    assert(ccitt_false_crc(d.take(7)) == 0x7718);
    assert(d.take(8).drop_last() =~= d.take(7));
    assert(ccitt_false_crc(d.take(8)) == 0xA12B);
    assert(d.take(9).drop_last() =~= d.take(8));
    assert(d.take(9) =~= d);
}

/// Whether the CRC of `data` equals `expected_crc`.
pub fn crc_matches(data: &[u8], expected_crc: u16) -> (r: bool)
    ensures
        r == (ccitt_false_crc(data@) == expected_crc),
{
    crc16_ccitt_false(data) == expected_crc
}

/// A decoded frame.
#[derive(Debug, Clone, PartialEq, Eq)]
pub struct Packet {
    pub message_id: u8,
    pub sequence: u16,
    pub timestamp: u32,
    pub payload: Vec<u8>,
}

/// The mathematical content of a [`Packet`].
#[verifier::ext_equal]
pub struct PacketView {
    pub message_id: u8,
    pub sequence: u16,
    pub timestamp: u32,
    pub payload: Seq<u8>,
}

impl View for Packet {
    type V = PacketView;

    open spec fn view(&self) -> PacketView {
        PacketView {
            message_id: self.message_id,
            sequence: self.sequence,
            timestamp: self.timestamp,
            payload: self.payload@,
        }
    }
}

/// Why a frame was rejected.
#[derive(Debug, Clone, PartialEq, Eq)]
pub enum DecodeError {
    /// Fewer bytes than the smallest frame.
    PacketTooShort { min_len: usize, actual_len: usize },
    /// The first two bytes are not the sync word.
    InvalidSync { found: [u8; 2] },
    /// The frame length disagrees with the declared payload length.
    LengthMismatch { expected_len: usize, actual_len: usize },
    /// The CRC carried by the frame differs from the one computed over it.
    CrcMismatch { expected_crc: u16, actual_crc: u16 },
}

/// Big-endian bytes of a 16-bit value.
pub open spec fn be16(v: u16) -> Seq<u8> {
    seq![(v / 256) as u8, (v % 256) as u8]
}

/// Big-endian bytes of a 32-bit value.
pub open spec fn be32(v: u32) -> Seq<u8> {
    seq![
        (v / 0x100_0000) as u8,
        ((v / 0x1_0000) % 256) as u8,
        ((v / 256) % 256) as u8,
        (v % 256) as u8,
    ]
}

/// The 16-bit value of two big-endian bytes.
pub open spec fn from_be16(hi: u8, lo: u8) -> u16 {
    (hi * 256 + lo) as u16
}

/// The 32-bit value of four big-endian bytes.
pub open spec fn from_be32(b0: u8, b1: u8, b2: u8, b3: u8) -> u32 {
    (b0 * 0x100_0000 + b1 * 0x1_0000 + b2 * 256 + b3) as u32
}

/// The sync word as a sequence.
pub open spec fn sync_seq() -> Seq<u8> {
    seq![0xAAu8, 0x55u8]
}

/// Message id through payload: the bytes the CRC covers.
pub open spec fn frame_body(p: PacketView) -> Seq<u8> {
    seq![p.message_id] + be16(p.payload.len() as u16) + be16(p.sequence) + be32(p.timestamp)
        + p.payload
}

/// The frame without its CRC.
pub open spec fn unsealed_frame(p: PacketView) -> Seq<u8> {
    sync_seq() + frame_body(p)
}

/// The complete frame of a packet: sync word, body, CRC of the body.
pub open spec fn encoded_frame(p: PacketView) -> Seq<u8> {
    unsealed_frame(p) + be16(ccitt_false_crc(frame_body(p)))
}

/// What decoding a frame gives, once the CRC computed over its body is known.
pub open spec fn decode_with_crc(f: Seq<u8>, actual_crc: u16) -> Result<PacketView, DecodeError> {
    if f.len() < MIN_FRAME_LEN {
        Err(DecodeError::PacketTooShort { min_len: MIN_FRAME_LEN, actual_len: f.len() as usize })
    } else if f[0] != 0xAA || f[1] != 0x55 {
        Err(DecodeError::InvalidSync { found: [f[0], f[1]] })
    } else if f.len() != MIN_FRAME_LEN + from_be16(f[3], f[4]) {
        Err(
            DecodeError::LengthMismatch {
                expected_len: (MIN_FRAME_LEN + from_be16(f[3], f[4])) as usize,
                actual_len: f.len() as usize,
            },
        )
    } else if from_be16(f[f.len() - 2], f[f.len() - 1]) != actual_crc {
        Err(
            DecodeError::CrcMismatch {
                expected_crc: from_be16(f[f.len() - 2], f[f.len() - 1]),
                actual_crc,
            },
        )
    } else {
        Ok(
            PacketView {
                message_id: f[2],
                sequence: from_be16(f[5], f[6]),
                timestamp: from_be32(f[7], f[8], f[9], f[10]),
                payload: f.subrange(11, f.len() - 2),
            },
        )
    }
}

/// The bytes a frame's CRC is computed over: those after the sync word and
/// before the last two.
pub open spec fn crc_region(f: Seq<u8>) -> Seq<u8> {
    f.subrange(2, f.len() - 2)
}

/// What decoding a frame gives.
pub open spec fn decode_frame(f: Seq<u8>) -> Result<PacketView, DecodeError> {
    decode_with_crc(f, ccitt_false_crc(crc_region(f)))
}

/// The view of a decoding result.
pub open spec fn result_view(r: Result<Packet, DecodeError>) -> Result<PacketView, DecodeError> {
    match r {
        Ok(p) => Ok(p@),
        Err(e) => Err(e),
    }
}

fn push_be16(frame: &mut Vec<u8>, v: u16)
    ensures
        final(frame)@ == old(frame)@ + be16(v),
{
    frame.push((v / 256) as u8);
    frame.push((v % 256) as u8);
}

fn push_be32(frame: &mut Vec<u8>, v: u32)
    ensures
        final(frame)@ == old(frame)@ + be32(v),
{
    frame.push((v / 0x100_0000) as u8);
    frame.push(((v / 0x1_0000) % 256) as u8);
    frame.push(((v / 256) % 256) as u8);
    frame.push((v % 256) as u8);
}

/// The frame of a packet up to, and without, its CRC.
pub fn unsealed_frame_of(packet: &Packet) -> (frame: Vec<u8>)
    requires
        packet.payload.len() <= u16::MAX,
    ensures
        frame@ == unsealed_frame(packet@),
        frame@.len() == MIN_FRAME_LEN - CRC_LEN + packet.payload.len(),
{
    let payload_len = packet.payload.len();
    let mut frame: Vec<u8> = Vec::with_capacity(MIN_FRAME_LEN + payload_len);
    frame.push(SYNC_WORD[0]);
    frame.push(SYNC_WORD[1]);
    frame.push(packet.message_id);
    push_be16(&mut frame, payload_len as u16);
    push_be16(&mut frame, packet.sequence);
    push_be32(&mut frame, packet.timestamp);
    let ghost before = frame@;
    frame.extend_from_slice(packet.payload.as_slice());
    assert(frame@ =~= before + packet.payload@);
    assert(frame@ =~= unsealed_frame(packet@));
    frame
}

/// Appends the big-endian CRC to an unsealed frame.
pub fn seal_frame(frame: Vec<u8>, crc: u16) -> (sealed: Vec<u8>)
    ensures
        sealed@ == frame@ + be16(crc),
{
    let mut frame = frame;
    push_be16(&mut frame, crc);
    frame
}

/// Encodes a packet into a frame. The payload must fit the 16-bit length field.
pub fn encode_packet(packet: &Packet) -> (frame: Vec<u8>)
    requires
        packet.payload.len() <= u16::MAX,
    ensures
        frame@ == encoded_frame(packet@),
        frame@.len() == MIN_FRAME_LEN + packet.payload.len(),
{
    let unsealed = unsealed_frame_of(packet);
    let body = slice_subrange(unsealed.as_slice(), 2, unsealed.len());
    assert(body@ =~= frame_body(packet@));
    let crc = crc16_ccitt_false(body);
    seal_frame(unsealed, crc)
}

/// Length, sync word and declared length are all as they should be.
pub open spec fn framing_ok(f: Seq<u8>) -> bool {
    &&& f.len() >= MIN_FRAME_LEN
    &&& f[0] == 0xAA
    &&& f[1] == 0x55
    &&& f.len() == MIN_FRAME_LEN + from_be16(f[3], f[4])
}

/// Checks length, sync word and declared length, everything that comes before
/// the CRC; on success the frame is at least [`MIN_FRAME_LEN`] long and its
/// length agrees with the declared payload length.
pub fn check_framing(frame: &[u8]) -> (r: Result<(), DecodeError>)
    ensures
        match r {
            Ok(()) => framing_ok(frame@),
            Err(e) => forall|c: u16| #[trigger] decode_with_crc(frame@, c) == Err::<PacketView, DecodeError>(e),
        },
{
    if frame.len() < MIN_FRAME_LEN {
        return Err(DecodeError::PacketTooShort { min_len: MIN_FRAME_LEN, actual_len: frame.len() });
    }
    let found_sync = [frame[0], frame[1]];
    if frame[0] != SYNC_WORD[0] || frame[1] != SYNC_WORD[1] {
        return Err(DecodeError::InvalidSync { found: found_sync });
    }
    let payload_len = ((frame[3] as u16) * 256 + frame[4] as u16) as usize;
    let expected_len = MIN_FRAME_LEN + payload_len;
    if frame.len() != expected_len {
        return Err(DecodeError::LengthMismatch { expected_len, actual_len: frame.len() });
    }
    Ok(())
}

/// Decodes a frame that passed [`check_framing`], given the CRC computed over
/// its body.
pub fn decode_checked_frame(frame: &[u8], actual_crc: u16) -> (r: Result<Packet, DecodeError>)
    requires
        framing_ok(frame@),
    ensures
        result_view(r) == decode_with_crc(frame@, actual_crc),
{
    let crc_index = frame.len() - CRC_LEN;
    let expected_crc = (frame[crc_index] as u16) * 256 + frame[crc_index + 1] as u16;
    if expected_crc != actual_crc {
        return Err(DecodeError::CrcMismatch { expected_crc, actual_crc });
    }
    let message_id = frame[2];
    let sequence = (frame[5] as u16) * 256 + frame[6] as u16;
    let timestamp = (frame[7] as u32) * 0x100_0000 + (frame[8] as u32) * 0x1_0000
        + (frame[9] as u32) * 256 + frame[10] as u32;
    let payload = slice_to_vec(slice_subrange(frame, 2 + FIXED_FIELDS_LEN, crc_index));
    Ok(Packet { message_id, sequence, timestamp, payload })
}

/// Decodes a frame, rejecting it for the first failed check in the order:
/// too short, bad sync word, length mismatch, CRC mismatch.
pub fn decode_packet(frame: &[u8]) -> (r: Result<Packet, DecodeError>)
    ensures
        result_view(r) == decode_frame(frame@),
{
    match check_framing(frame) {
        Err(e) => {
            assert(decode_with_crc(frame@, ccitt_false_crc(crc_region(frame@))) == Err::<PacketView, DecodeError>(e));
            return Err(e);
        },
        Ok(()) => {},
    }
    let crc_index = frame.len() - CRC_LEN;
    let body = slice_subrange(frame, 2, crc_index);
    let actual_crc = crc16_ccitt_false(body);
    decode_checked_frame(frame, actual_crc)
}

proof fn lemma_be16_inverse(v: u16)
    ensures
        from_be16(be16(v)[0], be16(v)[1]) == v,
{
}

proof fn lemma_from_be16_inverse(hi: u8, lo: u8)
    ensures
        be16(from_be16(hi, lo)) =~= seq![hi, lo],
{
}

proof fn lemma_be32_inverse(v: u32)
    ensures
        from_be32(be32(v)[0], be32(v)[1], be32(v)[2], be32(v)[3]) == v,
{
}

proof fn lemma_from_be32_inverse(b0: u8, b1: u8, b2: u8, b3: u8)
    ensures
        be32(from_be32(b0, b1, b2, b3)) =~= seq![b0, b1, b2, b3],
{
    let v: int = b0 * 0x100_0000 + b1 * 0x1_0000 + b2 * 256 + b3;
    let hi: int = b0 * 0x1_0000 + b1 * 256 + b2;
    assert(v / 256 == hi && v % 256 == b3) by (nonlinear_arith)
        requires v == hi * 256 + b3, 0 <= b3 < 256, 0 <= hi;
    let mid: int = b0 * 256 + b1;
    assert(hi / 256 == mid && hi % 256 == b2) by (nonlinear_arith)
        requires hi == mid * 256 + b2, 0 <= b2 < 256, 0 <= mid;
    assert(v / 0x1_0000 == mid) by (nonlinear_arith)
        requires v == mid * 0x1_0000 + b2 * 256 + b3, 0 <= b2 < 256, 0 <= b3 < 256, 0 <= mid;
    assert(v / 0x100_0000 == b0) by (nonlinear_arith)
        requires v == b0 * 0x100_0000 + b1 * 0x1_0000 + b2 * 256 + b3, 0 <= b1 < 256, 0 <= b2 < 256, 0 <= b3 < 256, 0 <= b0;
    assert(mid % 256 == b1);
    assert(from_be32(b0, b1, b2, b3) == v);
}

/// Decoding the frame of a packet gives the packet back, for every payload
/// that fits the 16-bit length field.
pub proof fn lemma_decode_inverts_encode(p: PacketView)
    requires
        p.payload.len() <= u16::MAX,
    ensures
        decode_frame(encoded_frame(p)) == Ok::<PacketView, DecodeError>(p),
{
    let f = encoded_frame(p);
    let body = frame_body(p);
    let n = p.payload.len();
    lemma_be16_inverse(n as u16);
    lemma_be16_inverse(p.sequence);
    lemma_be32_inverse(p.timestamp);
    lemma_be16_inverse(ccitt_false_crc(body));
    assert(f.len() == 13 + n);
    assert(f[3] == be16(n as u16)[0] && f[4] == be16(n as u16)[1]);
    assert(f[5] == be16(p.sequence)[0] && f[6] == be16(p.sequence)[1]);
    assert(f[7] == be32(p.timestamp)[0] && f[8] == be32(p.timestamp)[1]);
    assert(f[9] == be32(p.timestamp)[2] && f[10] == be32(p.timestamp)[3]);
    assert(f[f.len() - 2] == be16(ccitt_false_crc(body))[0]);
    assert(f[f.len() - 1] == be16(ccitt_false_crc(body))[1]);
    assert(crc_region(f) =~= body);
    assert(f.subrange(11, f.len() - 2) =~= p.payload);
    let q = decode_frame(f)->Ok_0;
    assert(q =~= p);
}

/// A frame that decodes is exactly the encoding of the packet it decodes to:
/// the decoder accepts no byte sequence other than canonical encodings.
pub proof fn lemma_decoded_frame_is_canonical(f: Seq<u8>)
    requires
        decode_frame(f) is Ok,
    ensures
        encoded_frame(decode_frame(f)->Ok_0) == f,
{
    let p = decode_frame(f)->Ok_0;
    lemma_from_be16_inverse(f[3], f[4]);
    lemma_from_be16_inverse(f[5], f[6]);
    lemma_from_be32_inverse(f[7], f[8], f[9], f[10]);
    lemma_from_be16_inverse(f[f.len() - 2], f[f.len() - 1]);
    assert(p.payload.len() == f.len() - 13);
    assert(p.payload.len() as u16 == from_be16(f[3], f[4]));
    assert(frame_body(p) =~= crc_region(f));
    assert(encoded_frame(p) =~= f);
}

} // verus!
