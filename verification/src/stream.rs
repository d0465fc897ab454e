//! The receive path of a session: frames cut out of the byte stream, decoded,
//! counted and turned into the messages broadcast to the dashboard.

use crate::packet::{decode_frame, decode_packet, encoded_frame, from_be16, lemma_decode_inverts_encode, result_view, DecodeError, Packet, PacketView, MIN_FRAME_LEN};
use crate::text::{decimal, hex2, push_decimal, push_hex2, push_str};
use vstd::prelude::*;
use vstd::slice::{slice_subrange, slice_to_vec};
use vstd::string::*;

verus! {

broadcast use vstd::string::group_string_axioms;

pub const MESSAGE_ID_TELEMETRY: u8 = 0x01;
pub const MESSAGE_ID_ACK: u8 = 0x03;
pub const MESSAGE_ID_COMMAND_RESPONSE: u8 = 0x04;
pub const MESSAGE_ID_EVENT: u8 = 0x05;

/// Largest payload the stream reader accepts before it resynchronises.
pub const MAX_PAYLOAD_LEN: usize = 256;

/// A message for the dashboard.
#[derive(Debug, Clone, PartialEq, Eq)]
pub enum BackendMessage {
    FrameReceived { seq: u16, timestamp: u32, payload: Vec<u8> },
    Stats { ok: u32, dropped: u32 },
    Error { kind: String, detail: String },
    Ack { code: u8 },
    CommandResponse { code: u8 },
    Event { code: u8 },
    LinkState { state: String, detail: String },
}

/// The mathematical content of a [`BackendMessage`].
pub enum MessageView {
    FrameReceived { seq: u16, timestamp: u32, payload: Seq<u8> },
    Stats { ok: u32, dropped: u32 },
    Error { kind: Seq<char>, detail: Seq<char> },
    Ack { code: u8 },
    CommandResponse { code: u8 },
    Event { code: u8 },
    LinkState { state: Seq<char>, detail: Seq<char> },
}

impl View for BackendMessage {
    type V = MessageView;

    open spec fn view(&self) -> MessageView {
        match self {
            BackendMessage::FrameReceived { seq, timestamp, payload } => MessageView::FrameReceived {
                seq: *seq,
                timestamp: *timestamp,
                payload: payload@,
            },
            BackendMessage::Stats { ok, dropped } => MessageView::Stats { ok: *ok, dropped: *dropped },
            BackendMessage::Error { kind, detail } => MessageView::Error { kind: kind@, detail: detail@ },
            BackendMessage::Ack { code } => MessageView::Ack { code: *code },
            BackendMessage::CommandResponse { code } => MessageView::CommandResponse { code: *code },
            BackendMessage::Event { code } => MessageView::Event { code: *code },
            BackendMessage::LinkState { state, detail } => MessageView::LinkState {
                state: state@,
                detail: detail@,
            },
        }
    }
}

/// The line a message adds to a live session's error log: `[kind] detail` for
/// an error, `[LinkState:STATE] detail` for a link state, none otherwise.
pub open spec fn log_line_of(m: MessageView) -> Option<Seq<char>> {
    match m {
        MessageView::Error { kind, detail } => Some("["@ + kind + "] "@ + detail),
        MessageView::LinkState { state, detail } => Some("[LinkState:"@ + state + "] "@ + detail),
        _ => None,
    }
}

impl BackendMessage {
    /// The line this message adds to a live session's error log, if any.
    pub fn log_line(&self) -> (line: Option<String>)
        ensures
            match line {
                Some(l) => log_line_of(self@) == Some(l@),
                None => log_line_of(self@) is None,
            },
    {
        match self {
            BackendMessage::Error { kind, detail } => {
                let mut l = String::from_str("[");
                push_str(&mut l, kind.as_str());
                push_str(&mut l, "] ");
                push_str(&mut l, detail.as_str());
                Some(l)
            },
            BackendMessage::LinkState { state, detail } => {
                let mut l = String::from_str("[LinkState:");
                push_str(&mut l, state.as_str());
                push_str(&mut l, "] ");
                push_str(&mut l, detail.as_str());
                Some(l)
            },
            _ => None,
        }
    }
}

/// The views of a list of messages.
pub open spec fn messages_view(v: Seq<BackendMessage>) -> Seq<MessageView> {
    v.map_values(|m: BackendMessage| m@)
}

/// An error message for the dashboard.
pub open spec fn error_view(kind: Seq<char>, detail: Seq<char>) -> MessageView {
    MessageView::Error { kind, detail }
}

fn error_message(kind: &str, detail: String) -> (m: BackendMessage)
    ensures
        m@ == error_view(kind@, detail@),
{
    BackendMessage::Error { kind: String::from_str(kind), detail }
}

/// `Name { first: a, second: b }`, the way `Debug` prints a struct variant of
/// two numbers.
pub open spec fn two_field_text(name: Seq<char>, first: Seq<char>, a: nat, second: Seq<char>, b: nat) -> Seq<char> {
    name + " { "@ + first + ": "@ + decimal(a) + ", "@ + second + ": "@ + decimal(b) + " }"@
}

/// The `Debug` text of a decoding error.
pub open spec fn decode_error_text(e: DecodeError) -> Seq<char> {
    match e {
        DecodeError::PacketTooShort { min_len, actual_len } => two_field_text(
            "PacketTooShort"@, "min_len"@, min_len as nat, "actual_len"@, actual_len as nat),
        DecodeError::InvalidSync { found } => "InvalidSync { found: ["@ + decimal(found[0] as nat)
            + ", "@ + decimal(found[1] as nat) + "] }"@,
        DecodeError::LengthMismatch { expected_len, actual_len } => two_field_text(
            "LengthMismatch"@, "expected_len"@, expected_len as nat, "actual_len"@, actual_len as nat),
        DecodeError::CrcMismatch { expected_crc, actual_crc } => two_field_text(
            "CrcMismatch"@, "expected_crc"@, expected_crc as nat, "actual_crc"@, actual_crc as nat),
    }
}

fn two_field(name: &str, first: &str, a: u64, second: &str, b: u64) -> (s: String)
    ensures
        s@ == two_field_text(name@, first@, a as nat, second@, b as nat),
{
    let mut s = String::from_str(name);
    push_str(&mut s, " { ");
    push_str(&mut s, first);
    push_str(&mut s, ": ");
    push_decimal(&mut s, a);
    push_str(&mut s, ", ");
    push_str(&mut s, second);
    push_str(&mut s, ": ");
    push_decimal(&mut s, b);
    push_str(&mut s, " }");
    s
}

/// Writes a decoding error the way `Debug` prints it.
pub fn describe_decode_error(e: &DecodeError) -> (s: String)
    ensures
        s@ == decode_error_text(*e),
{
    match e {
        DecodeError::PacketTooShort { min_len, actual_len } => two_field(
            "PacketTooShort", "min_len", *min_len as u64, "actual_len", *actual_len as u64),
        DecodeError::InvalidSync { found } => {
            let mut s = String::from_str("InvalidSync { found: [");
            push_decimal(&mut s, found[0] as u64);
            push_str(&mut s, ", ");
            push_decimal(&mut s, found[1] as u64);
            push_str(&mut s, "] }");
            s
        },
        DecodeError::LengthMismatch { expected_len, actual_len } => two_field(
            "LengthMismatch", "expected_len", *expected_len as u64, "actual_len", *actual_len as u64),
        DecodeError::CrcMismatch { expected_crc, actual_crc } => two_field(
            "CrcMismatch", "expected_crc", *expected_crc as u64, "actual_crc", *actual_crc as u64),
    }
}

/// The message a decoded packet produces, before sequence accounting.
pub open spec fn packet_message(p: PacketView) -> MessageView {
    if p.message_id == MESSAGE_ID_TELEMETRY {
        MessageView::FrameReceived { seq: p.sequence, timestamp: p.timestamp, payload: p.payload }
    } else if p.message_id == MESSAGE_ID_ACK {
        if p.payload.len() > 0 {
            MessageView::Ack { code: p.payload[0] }
        } else {
            error_view("Protocol"@, "ACK packet missing payload"@)
        }
    } else if p.message_id == MESSAGE_ID_COMMAND_RESPONSE {
        if p.payload.len() > 0 {
            MessageView::CommandResponse { code: p.payload[0] }
        } else {
            error_view("Protocol"@, "Command response packet missing payload"@)
        }
    } else if p.message_id == MESSAGE_ID_EVENT {
        if p.payload.len() > 0 {
            MessageView::Event { code: p.payload[0] }
        } else {
            error_view("Protocol"@, "Event packet missing payload"@)
        }
    } else {
        error_view("Protocol"@, "Unsupported message id 0x"@ + hex2(p.message_id))
    }
}

/// The dashboard message for a decoded packet: telemetry, an ACK, a command
/// response or an event code, or a protocol error for an empty payload or an
/// unknown message id.
pub fn message_for_packet(packet: &Packet) -> (m: BackendMessage)
    ensures
        m@ == packet_message(packet@),
{
    let id = packet.message_id;
    if id == MESSAGE_ID_TELEMETRY {
        BackendMessage::FrameReceived {
            seq: packet.sequence,
            timestamp: packet.timestamp,
            payload: packet.payload.clone(),
        }
    } else if id == MESSAGE_ID_ACK {
        if packet.payload.len() > 0 {
            BackendMessage::Ack { code: packet.payload[0] }
        } else {
            error_message("Protocol", String::from_str("ACK packet missing payload"))
        }
    } else if id == MESSAGE_ID_COMMAND_RESPONSE {
        if packet.payload.len() > 0 {
            BackendMessage::CommandResponse { code: packet.payload[0] }
        } else {
            error_message("Protocol", String::from_str("Command response packet missing payload"))
        }
    } else if id == MESSAGE_ID_EVENT {
        if packet.payload.len() > 0 {
            BackendMessage::Event { code: packet.payload[0] }
        } else {
            error_message("Protocol", String::from_str("Event packet missing payload"))
        }
    } else {
        let mut detail = String::from_str("Unsupported message id 0x");
        push_hex2(&mut detail, id);
        error_message("Protocol", detail)
    }
}

/// Counters of a receive stream: frames accepted, frames lost, and the
/// sequence number expected next (none before the first packet).
#[derive(Debug, Clone, Copy, PartialEq, Eq)]
pub struct StreamStats {
    pub ok: u32,
    pub dropped: u32,
    pub expected_seq: Option<u16>,
}

/// `prefix: expected E, got G`.
pub open spec fn sequence_text(prefix: Seq<char>, expected: u16, got: u16) -> Seq<char> {
    prefix + ": expected "@ + decimal(expected as nat) + ", got "@ + decimal(got as nat)
}

fn sequence_detail(prefix: &str, expected: u16, got: u16) -> (s: String)
    ensures
        s@ == sequence_text(prefix@, expected, got),
{
    let mut s = String::from_str(prefix);
    push_str(&mut s, ": expected ");
    push_decimal(&mut s, expected as u64);
    push_str(&mut s, ", got ");
    push_decimal(&mut s, got as u64);
    s
}

/// The sequence error message of the given text.
pub open spec fn sequence_error(prefix: Seq<char>, expected: u16, got: u16) -> MessageView {
    error_view("Sequence"@, sequence_text(prefix, expected, got))
}

/// The counters after a packet with sequence number `seq`, and the messages
/// that report an irregularity:
/// - the first packet, or the expected one, counts as received;
/// - the number just before the expected one is a duplicate and changes nothing;
/// - a number past the expected one counts as received and the gap as lost;
/// - any other number is out of order and changes nothing.
pub open spec fn after_sequence(s: StreamStats, seq: u16) -> (StreamStats, Seq<MessageView>) {
    match s.expected_seq {
        None => (
            StreamStats { ok: s.ok.saturating_add(1), dropped: s.dropped, expected_seq: Some(seq.wrapping_add(1)) },
            seq![],
        ),
        Some(e) => if seq == e {
            (
                StreamStats { ok: s.ok.saturating_add(1), dropped: s.dropped, expected_seq: Some(e.wrapping_add(1)) },
                seq![],
            )
        } else if seq == e.wrapping_sub(1) {
            (s, seq![sequence_error("Duplicate packet"@, e, seq)])
        } else if seq > e {
            (
                StreamStats {
                    ok: s.ok.saturating_add(1),
                    dropped: s.dropped.saturating_add((seq - e) as u32),
                    expected_seq: Some(seq.wrapping_add(1)),
                },
                seq![sequence_error("Skipped/dropped packet(s)"@, e, seq)],
            )
        } else {
            (s, seq![sequence_error("Out of order packet"@, e, seq)])
        },
    }
}

/// The counters after one decoding result, and the messages it produces:
/// a packet gives its own message, any sequence message, then the counters;
/// an error counts one lost frame, advances the expected number, and gives
/// the error then the counters.
pub open spec fn after_decoded(s: StreamStats, r: Result<PacketView, DecodeError>) -> (StreamStats, Seq<MessageView>) {
    match r {
        Ok(p) => {
            let (s2, seq_msgs) = after_sequence(s, p.sequence);
            (s2, seq![packet_message(p)] + seq_msgs + seq![MessageView::Stats { ok: s2.ok, dropped: s2.dropped }])
        },
        Err(e) => {
            let s2 = StreamStats {
                ok: s.ok,
                dropped: s.dropped.saturating_add(1),
                expected_seq: match s.expected_seq {
                    Some(x) => Some(x.wrapping_add(1)),
                    None => None,
                },
            };
            (s2, seq![error_view("DecodeError"@, decode_error_text(e)), MessageView::Stats { ok: s2.ok, dropped: s2.dropped }])
        },
    }
}

/// The counters and messages after one frame.
pub open spec fn after_frame(s: StreamStats, frame: Seq<u8>) -> (StreamStats, Seq<MessageView>) {
    after_decoded(s, decode_frame(frame))
}

impl StreamStats {
    /// Fresh counters: nothing received, nothing lost, no expected number.
    pub fn new() -> (s: Self)
        ensures
            s.ok == 0,
            s.dropped == 0,
            s.expected_seq is None,
    {
        StreamStats { ok: 0, dropped: 0, expected_seq: None }
    }

    /// Forgets the expected sequence number, as after a reconnection; the
    /// counters are kept.
    pub fn reset_sequence_tracking(&mut self)
        ensures
            final(self).ok == old(self).ok,
            final(self).dropped == old(self).dropped,
            final(self).expected_seq is None,
    {
        self.expected_seq = None;
    }

    /// Accounts for a packet's sequence number; returns the sequence messages.
    pub fn record_sequence(&mut self, sequence: u16) -> (msgs: Vec<BackendMessage>)
        ensures
            (*final(self), messages_view(msgs@)) == after_sequence(*old(self), sequence),
    {
        let mut msgs: Vec<BackendMessage> = Vec::new();
        match self.expected_seq {
            None => {
                self.ok = self.ok.saturating_add(1);
                self.expected_seq = Some(sequence.wrapping_add(1));
            },
            Some(expected) => {
                if sequence == expected {
                    self.ok = self.ok.saturating_add(1);
                    self.expected_seq = Some(expected.wrapping_add(1));
                } else if sequence == expected.wrapping_sub(1) {
                    msgs.push(error_message("Sequence", sequence_detail("Duplicate packet", expected, sequence)));
                } else if sequence > expected {
                    self.ok = self.ok.saturating_add(1);
                    self.dropped = self.dropped.saturating_add(sequence.wrapping_sub(expected) as u32);
                    self.expected_seq = Some(sequence.wrapping_add(1));
                    msgs.push(error_message("Sequence", sequence_detail("Skipped/dropped packet(s)", expected, sequence)));
                } else {
                    msgs.push(error_message("Sequence", sequence_detail("Out of order packet", expected, sequence)));
                }
            },
        }
        assert(messages_view(msgs@) =~= after_sequence(*old(self), sequence).1);
        msgs
    }

    fn stats_message(&self) -> (m: BackendMessage)
        ensures
            m@ == (MessageView::Stats { ok: self.ok, dropped: self.dropped }),
    {
        BackendMessage::Stats { ok: self.ok, dropped: self.dropped }
    }

    /// Accounts for one decoding result; returns the messages to broadcast,
    /// in order.
    pub fn process_decoded(&mut self, result: Result<Packet, DecodeError>) -> (msgs: Vec<BackendMessage>)
        ensures
            (*final(self), messages_view(msgs@)) == after_decoded(*old(self), result_view(result)),
    {
        match result {
            Ok(packet) => {
                let mut msgs: Vec<BackendMessage> = Vec::new();
                msgs.push(message_for_packet(&packet));
                let mut seq_msgs = self.record_sequence(packet.sequence);
                let ghost seq_view = messages_view(seq_msgs@);
                let ghost first = messages_view(msgs@);
                msgs.append(&mut seq_msgs);
                assert(messages_view(msgs@) =~= first + seq_view);
                let ghost mid = messages_view(msgs@);
                msgs.push(self.stats_message());
                assert(messages_view(msgs@) =~= mid.push(MessageView::Stats { ok: self.ok, dropped: self.dropped }));
                msgs
            },
            Err(error) => {
                self.dropped = self.dropped.saturating_add(1);
                match self.expected_seq {
                    Some(expected) => {
                        self.expected_seq = Some(expected.wrapping_add(1));
                    },
                    None => {},
                }
                let mut msgs: Vec<BackendMessage> = Vec::new();
                msgs.push(error_message("DecodeError", describe_decode_error(&error)));
                msgs.push(self.stats_message());
                assert(messages_view(msgs@) =~= after_decoded(*old(self), result_view(Err(error))).1);
                msgs
            },
        }
    }

    /// Decodes one frame and accounts for it; returns the messages to
    /// broadcast, in order.
    pub fn process_frame(&mut self, frame: &[u8]) -> (msgs: Vec<BackendMessage>)
        ensures
            (*final(self), messages_view(msgs@)) == after_frame(*old(self), frame@),
    {
        let result = decode_packet(frame);
        self.process_decoded(result)
    }
}

/// One thing the receive path asks of its caller: record a frame in the
/// session's packet log, or broadcast a message (an error message is also
/// written to the session's error log).
#[derive(Debug, Clone, PartialEq, Eq)]
pub enum StreamAction {
    LogFrame(Vec<u8>),
    Send(BackendMessage),
}

/// The mathematical content of a [`StreamAction`].
pub enum ActionView {
    LogFrame(Seq<u8>),
    Send(MessageView),
}

impl View for StreamAction {
    type V = ActionView;

    open spec fn view(&self) -> ActionView {
        match self {
            StreamAction::LogFrame(f) => ActionView::LogFrame(f@),
            StreamAction::Send(m) => ActionView::Send(m@),
        }
    }
}

/// The views of a list of actions.
pub open spec fn actions_view(a: Seq<StreamAction>) -> Seq<ActionView> {
    a.map_values(|x: StreamAction| x@)
}

/// Broadcasting each of the messages, in order.
pub open spec fn sends(m: Seq<MessageView>) -> Seq<ActionView> {
    m.map_values(|x: MessageView| ActionView::Send(x))
}

/// The first position, from `i` on, where the sync word starts.
pub open spec fn first_sync_from(b: Seq<u8>, i: nat) -> Option<nat>
    decreases b.len() - i,
{
    if i + 1 >= b.len() {
        None
    } else if b[i as int] == 0xAA && b[i + 1int] == 0x55 {
        Some(i)
    } else {
        first_sync_from(b, i + 1)
    }
}

/// Where [`first_sync_from`] finds the sync word, it is there, within the
/// buffer, and nowhere before.
pub proof fn lemma_first_sync(b: Seq<u8>, i: nat)
    ensures
        match first_sync_from(b, i) {
            Some(k) => {
                &&& i <= k
                &&& k + 1 < b.len()
                &&& b[k as int] == 0xAA
                &&& b[k + 1int] == 0x55
            },
            None => forall|j: int| i <= j && j + 1 < b.len() ==> !(#[trigger] b[j] == 0xAA && b[j + 1] == 0x55),
        },
    decreases b.len() - i,
{
    if i + 1 < b.len() && !(b[i as int] == 0xAA && b[i + 1int] == 0x55) {
        lemma_first_sync(b, i + 1);
    }
}

/// The error message for stray bytes dropped before a sync word.
pub open spec fn stray_bytes_message(n: nat) -> MessageView {
    error_view("InvalidSync"@, "Discarded "@ + decimal(n) + " stray byte(s) before sync"@)
}

/// The error message for a buffer dropped because it holds no sync word.
pub open spec fn no_sync_message() -> MessageView {
    error_view("InvalidSync"@, "Discarded buffered bytes while searching for sync"@)
}

/// The error message for a declared payload length over [`MAX_PAYLOAD_LEN`].
pub open spec fn oversized_message(len: nat) -> MessageView {
    error_view("LengthMismatch"@, "Declared payload too large: "@ + decimal(len) + " bytes"@)
}

/// What the receive path does with a buffer whose first byte starts the sync
/// word: wait for a full header; skip the sync word of a header that declares
/// too large a payload; wait for the whole frame; or cut the frame out, log
/// it, account for it, and go on with the rest.
pub open spec fn extract_synced(b: Seq<u8>, s: StreamStats) -> (Seq<u8>, StreamStats, Seq<ActionView>)
    decreases b.len(), 0nat,
{
    if b.len() < MIN_FRAME_LEN {
        (b, s, seq![])
    } else if from_be16(b[3], b[4]) > MAX_PAYLOAD_LEN {
        let r = extract(b.skip(2), s);
        (r.0, r.1, seq![ActionView::Send(oversized_message(from_be16(b[3], b[4]) as nat))] + r.2)
    } else if b.len() < MIN_FRAME_LEN + from_be16(b[3], b[4]) {
        (b, s, seq![])
    } else {
        let frame_len = MIN_FRAME_LEN + from_be16(b[3], b[4]);
        let frame = b.take(frame_len);
        let (s1, msgs) = after_frame(s, frame);
        let r = extract(b.skip(frame_len), s1);
        (r.0, r.1, seq![ActionView::LogFrame(frame)] + sends(msgs) + r.2)
    }
}

/// What the receive path does with its buffer: the bytes left over, the
/// counters, and the actions, in order. With fewer than two bytes it waits.
/// Without a sync word it keeps at most a final `0xAA` and reports the
/// discarded bytes. Otherwise it drops (and reports) the bytes before the
/// first sync word and goes on from there.
pub open spec fn extract(b: Seq<u8>, s: StreamStats) -> (Seq<u8>, StreamStats, Seq<ActionView>)
    decreases b.len(), 1nat,
{
    if b.len() < 2 {
        (b, s, seq![])
    } else {
        match first_sync_from(b, 0) {
            None => (
                if b.last() == 0xAA { seq![0xAAu8] } else { seq![] },
                s,
                seq![ActionView::Send(no_sync_message())],
            ),
            Some(i) => {
                proof {
                    lemma_first_sync(b, 0);
                }
                if i == 0 {
                    extract_synced(b, s)
                } else {
                    let r = extract_synced(b.skip(i as int), s);
                    (r.0, r.1, seq![ActionView::Send(stray_bytes_message(i))] + r.2)
                }
            },
        }
    }
}

proof fn lemma_extract_at_sync(b: Seq<u8>, s: StreamStats)
    requires
        b.len() >= 2,
        b[0] == 0xAA,
        b[1] == 0x55,
    ensures
        extract(b, s) == extract_synced(b, s),
{
}

proof fn lemma_extract_after_stray(b: Seq<u8>, s: StreamStats, i: nat)
    requires
        b.len() >= 2,
        first_sync_from(b, 0) == Some(i),
        i > 0,
    ensures
        i + 2 <= b.len(),
        b.skip(i as int)[0] == 0xAA,
        b.skip(i as int)[1] == 0x55,
        extract(b, s) == ({
            let r = extract_synced(b.skip(i as int), s);
            (r.0, r.1, seq![ActionView::Send(stray_bytes_message(i))] + r.2)
        }),
{
    lemma_first_sync(b, 0);
}

fn find_sync(buf: &Vec<u8>) -> (r: Option<usize>)
    ensures
        match r {
            Some(i) => first_sync_from(buf@, 0) == Some(i as nat),
            None => first_sync_from(buf@, 0) is None,
        },
{
    let n = buf.len();
    let mut j: usize = 0;
    while n > 0 && j < n - 1
        invariant
            n == buf@.len(),
            first_sync_from(buf@, 0) == first_sync_from(buf@, j as nat),
        decreases n - j,
    {
        if buf[j] == 0xAA && buf[j + 1] == 0x55 {
            return Some(j);
        }
        j = j + 1;
    }
    None
}

fn drop_front(buf: &Vec<u8>, n: usize) -> (r: Vec<u8>)
    requires
        n <= buf@.len(),
    ensures
        r@ == buf@.skip(n as int),
{
    let r = slice_to_vec(slice_subrange(buf.as_slice(), n, buf.len()));
    assert(r@ =~= buf@.skip(n as int));
    r
}

fn push_sends(acts: &mut Vec<StreamAction>, msgs: Vec<BackendMessage>)
    ensures
        actions_view(final(acts)@) == actions_view(old(acts)@) + sends(messages_view(msgs@)),
{
    let ghost orig = msgs@;
    let mut msgs = msgs;
    let total_len = msgs.len();
    let mut k: usize = 0;
    while msgs.len() > 0
        invariant
            msgs@ == orig.skip(k as int),
            k <= orig.len(),
            orig.len() == total_len,
            actions_view(acts@) == actions_view(old(acts)@) + sends(messages_view(orig.take(k as int))),
        decreases msgs@.len(),
    {
        let m = msgs.remove(0);
        let ghost before = actions_view(acts@);
        acts.push(StreamAction::Send(m));
        assert(orig.take(k + 1) =~= orig.take(k as int).push(orig[k as int]));
        assert(messages_view(orig.take(k + 1)) =~= messages_view(orig.take(k as int)).push(orig[k as int]@));
        assert(actions_view(acts@) =~= before.push(ActionView::Send(m@)));
        assert(sends(messages_view(orig.take(k + 1))) =~= sends(messages_view(orig.take(k as int))).push(ActionView::Send(m@)));
        k = k + 1;
        assert(msgs@ =~= orig.skip(k as int));
    }
    assert(orig.take(k as int) =~= orig);
}

/// The bytes received and not yet cut into frames. Two ghost records keep
/// its history: every byte pushed into it, in order, and every frame it has
/// handed over to be logged and decoded, in order.
pub struct FrameExtractor {
    pub buffer: Vec<u8>,
    pub received: Ghost<Seq<u8>>,
    pub handed_over: Ghost<Seq<Seq<u8>>>,
}

impl FrameExtractor {
    /// What holds of an extractor over any run of pushes from
    /// [`FrameExtractor::new`]: the frames it has handed over occur in the
    /// bytes received, one after the other, in order and without overlapping,
    /// each starting with the sync word and as long as its declared payload
    /// (at most [`MAX_PAYLOAD_LEN`] bytes) requires; and the bytes it holds
    /// are what was received after the last of them.
    pub open spec fn wf(self) -> bool {
        in_stream_order(self.received@, self.handed_over@, self.buffer@)
    }

    /// An extractor with an empty buffer, which has received nothing.
    pub fn new() -> (e: Self)
        ensures
            e.buffer@.len() == 0,
            e.received@.len() == 0,
            e.handed_over@.len() == 0,
            e.wf(),
    {
        let e = FrameExtractor { buffer: Vec::new(), received: Ghost(Seq::empty()), handed_over: Ghost(Seq::empty()) };
        assert(e.buffer@ =~= e.received@.skip(0));
        e
    }

    /// Appends received bytes and cuts out every complete frame, resynchronising
    /// on the sync word; returns what to log and broadcast, in order.
    pub fn push_bytes(&mut self, bytes: &[u8], stats: &mut StreamStats) -> (actions: Vec<StreamAction>)
        ensures
            ({
                let r = extract(old(self).buffer@ + bytes@, *old(stats));
                &&& final(self).buffer@ == r.0
                &&& *final(stats) == r.1
                &&& actions_view(actions@) == r.2
            }),
            final(self).received@ == old(self).received@ + bytes@,
            final(self).handed_over@ == old(self).handed_over@ + logged_frames(actions_view(actions@)),
            old(self).wf() ==> final(self).wf(),
    {
        proof {
            lemma_extract_shape(old(self).buffer@ + bytes@, *old(stats));
        }
        self.buffer.extend_from_slice(bytes);
        let ghost total = extract(old(self).buffer@ + bytes@, *old(stats));
        assert(self.buffer@ =~= old(self).buffer@ + bytes@);
        let mut acts: Vec<StreamAction> = Vec::new();
        let mut more = true;
        while more
            invariant
                more ==> extract(self.buffer@, *stats).0 == total.0,
                more ==> extract(self.buffer@, *stats).1 == total.1,
                more ==> actions_view(acts@) + extract(self.buffer@, *stats).2 == total.2,
                !more ==> self.buffer@ == total.0,
                !more ==> *stats == total.1,
                !more ==> actions_view(acts@) == total.2,
                self.received == old(self).received,
                self.handed_over == old(self).handed_over,
            decreases self.buffer@.len(), if more { 1int } else { 0int },
        {
            let len = self.buffer.len();
            if len < 2 {
                assert(actions_view(acts@) =~= total.2);
                more = false;
            } else {
                let found = find_sync(&self.buffer);
                if found.is_none() {
                    let last = self.buffer[len - 1];
                    let mut kept: Vec<u8> = Vec::new();
                    if last == 0xAA {
                        kept.push(0xAA);
                    }
                    assert(kept@ =~= (if self.buffer@.last() == 0xAA { seq![0xAAu8] } else { seq![] }));
                    self.buffer = kept;
                    let ghost before = actions_view(acts@);
                    acts.push(StreamAction::Send(error_message("InvalidSync", String::from_str("Discarded buffered bytes while searching for sync"))));
                    assert(actions_view(acts@) =~= before.push(ActionView::Send(no_sync_message())));
                    assert(actions_view(acts@) =~= total.2);
                    more = false;
                } else {
                    let index = found.unwrap();
                    if index > 0 {
                        let ghost old_buf = self.buffer@;
                        proof {
                            lemma_extract_after_stray(old_buf, *stats, index as nat);
                        }
                        self.buffer = drop_front(&self.buffer, index);
                        let mut detail = String::from_str("Discarded ");
                        push_decimal(&mut detail, index as u64);
                        push_str(&mut detail, " stray byte(s) before sync");
                        let ghost before = actions_view(acts@);
                        acts.push(StreamAction::Send(error_message("InvalidSync", detail)));
                        assert(actions_view(acts@) =~= before.push(ActionView::Send(stray_bytes_message(index as nat))));
                        assert(actions_view(acts@) + extract_synced(self.buffer@, *stats).2 =~= total.2);
                    } else {
                        proof {
                            lemma_first_sync(self.buffer@, 0);
                            lemma_extract_at_sync(self.buffer@, *stats);
                        }
                    }
                    more = self.step_synced(stats, &mut acts, Ghost(total));
                }
            }
        }
        proof {
            let fresh = logged_frames(actions_view(acts@));
            if old(self).wf() {
                lemma_in_stream_order_compose(old(self).received@, old(self).handed_over@, old(self).buffer@, bytes@, fresh, self.buffer@);
            }
            self.received = Ghost(old(self).received@ + bytes@);
            self.handed_over = Ghost(old(self).handed_over@ + fresh);
        }
        acts
    }

    /// One round on a buffer that starts with the sync word; returns whether
    /// the caller should go on.
    fn step_synced(&mut self, stats: &mut StreamStats, acts: &mut Vec<StreamAction>, Ghost(total): Ghost<(Seq<u8>, StreamStats, Seq<ActionView>)>) -> (more: bool)
        requires
            old(self).buffer@.len() >= 2,
            extract_synced(old(self).buffer@, *old(stats)).0 == total.0,
            extract_synced(old(self).buffer@, *old(stats)).1 == total.1,
            actions_view(old(acts)@) + extract_synced(old(self).buffer@, *old(stats)).2 == total.2,
        ensures
            final(self).buffer@.len() <= old(self).buffer@.len(),
            more ==> final(self).buffer@.len() < old(self).buffer@.len(),
            more ==> extract(final(self).buffer@, *final(stats)).0 == total.0,
            more ==> extract(final(self).buffer@, *final(stats)).1 == total.1,
            more ==> actions_view(final(acts)@) + extract(final(self).buffer@, *final(stats)).2 == total.2,
            !more ==> final(self).buffer@ == total.0,
            !more ==> *final(stats) == total.1,
            !more ==> actions_view(final(acts)@) == total.2,
            final(self).received == old(self).received,
            final(self).handed_over == old(self).handed_over,
    {
        if self.buffer.len() < MIN_FRAME_LEN {
            assert(actions_view(acts@) =~= total.2);
            return false;
        }
        let payload_len = ((self.buffer[3] as u16) * 256 + self.buffer[4] as u16) as usize;
        if payload_len > MAX_PAYLOAD_LEN {
            self.buffer = drop_front(&self.buffer, 2);
            let mut detail = String::from_str("Declared payload too large: ");
            push_decimal(&mut detail, payload_len as u64);
            push_str(&mut detail, " bytes");
            let ghost before = actions_view(acts@);
            acts.push(StreamAction::Send(error_message("LengthMismatch", detail)));
            assert(actions_view(acts@) =~= before.push(ActionView::Send(oversized_message(payload_len as nat))));
            assert(actions_view(acts@) + extract(self.buffer@, *stats).2 =~= total.2);
            return true;
        }
        let frame_len = MIN_FRAME_LEN + payload_len;
        if self.buffer.len() < frame_len {
            assert(actions_view(acts@) =~= total.2);
            return false;
        }
        let ghost old_buf = self.buffer@;
        let frame = slice_to_vec(slice_subrange(self.buffer.as_slice(), 0, frame_len));
        assert(frame@ =~= old_buf.take(frame_len as int));
        self.buffer = drop_front(&self.buffer, frame_len);
        let logged = slice_to_vec(frame.as_slice());
        let ghost before = actions_view(acts@);
        acts.push(StreamAction::LogFrame(logged));
        assert(actions_view(acts@) =~= before.push(ActionView::LogFrame(frame@)));
        let msgs = stats.process_frame(frame.as_slice());
        push_sends(acts, msgs);
        assert(actions_view(acts@) + extract(self.buffer@, *stats).2 =~= total.2);
        true
    }
}

/// A well-formed frame whose payload is within [`MAX_PAYLOAD_LEN`], arriving
/// at an empty buffer, is cut out whole: it is logged, decoded back to its
/// packet, accounted for, and nothing is left over.
pub proof fn lemma_whole_frame_delivered(p: PacketView, s: StreamStats)
    requires
        p.payload.len() <= MAX_PAYLOAD_LEN,
    ensures
        ({
            let f = encoded_frame(p);
            let (s1, msgs) = after_decoded(s, Ok(p));
            extract(f, s) == (Seq::<u8>::empty(), s1, seq![ActionView::LogFrame(f)] + sends(msgs))
        }),
{
    let f = encoded_frame(p);
    lemma_decode_inverts_encode(p);
    assert(f[0] == 0xAA && f[1] == 0x55);
    lemma_extract_at_sync(f, s);
    assert(from_be16(f[3], f[4]) == p.payload.len());
    assert(f.take(f.len() as int) =~= f);
    let (s1, msgs) = after_frame(s, f);
    assert(f.skip(f.len() as int) =~= Seq::<u8>::empty());
    assert(extract(Seq::<u8>::empty(), s1) == (Seq::<u8>::empty(), s1, Seq::<ActionView>::empty()));
    assert(seq![ActionView::LogFrame(f)] + sends(msgs) + Seq::<ActionView>::empty() =~= seq![ActionView::LogFrame(f)] + sends(msgs));
}

proof fn lemma_first_sync_after_noise(b: Seq<u8>, n: nat, i: nat)
    requires
        i <= n,
        n + 1 < b.len(),
        b[n as int] == 0xAA,
        b[n + 1int] == 0x55,
        forall|j: int| 0 <= j < n ==> b[j] != 0xAA,
    ensures
        first_sync_from(b, i) == Some(n),
    decreases n - i,
{
    if i < n {
        lemma_first_sync_after_noise(b, n, i + 1);
    }
}

/// Automatic resynchronisation: a frame preceded by noise that holds no
/// `0xAA` byte is still recovered. The noise is dropped and reported, then
/// the frame is cut out whole, logged, decoded and accounted for.
pub proof fn lemma_resync_after_noise(noise: Seq<u8>, p: PacketView, s: StreamStats)
    requires
        noise.len() > 0,
        forall|j: int| 0 <= j < noise.len() ==> noise[j] != 0xAA,
        p.payload.len() <= MAX_PAYLOAD_LEN,
    ensures
        ({
            let f = encoded_frame(p);
            let (s1, msgs) = after_decoded(s, Ok(p));
            extract(noise + f, s) == (
                Seq::<u8>::empty(),
                s1,
                seq![ActionView::Send(stray_bytes_message(noise.len())), ActionView::LogFrame(f)] + sends(msgs),
            )
        }),
{
    let f = encoded_frame(p);
    let b = noise + f;
    let n = noise.len();
    assert(f[0] == 0xAA && f[1] == 0x55);
    assert(b[n as int] == 0xAA && b[n + 1int] == 0x55);
    lemma_first_sync_after_noise(b, n, 0);
    lemma_extract_after_stray(b, s, n);
    assert(b.skip(n as int) =~= f);
    lemma_extract_at_sync(f, s);
    lemma_whole_frame_delivered(p, s);
    let (s1, msgs) = after_decoded(s, Ok(p));
    assert(seq![ActionView::Send(stray_bytes_message(n))] + (seq![ActionView::LogFrame(f)] + sends(msgs))
        =~= seq![ActionView::Send(stray_bytes_message(n)), ActionView::LogFrame(f)] + sends(msgs));
}

/// Reassembly: any proper prefix of a well-formed frame (payload within
/// [`MAX_PAYLOAD_LEN`]) is kept whole and waits, without any action, so a
/// frame that arrives in pieces is handled as if it had arrived at once.
pub proof fn lemma_partial_frame_waits(p: PacketView, s: StreamStats, k: nat)
    requires
        p.payload.len() <= MAX_PAYLOAD_LEN,
        k < encoded_frame(p).len(),
    ensures
        extract(encoded_frame(p).take(k as int), s) == (encoded_frame(p).take(k as int), s, Seq::<ActionView>::empty()),
{
    let f = encoded_frame(p);
    let b = f.take(k as int);
    lemma_decode_inverts_encode(p);
    if k >= 2 {
        assert(b[0] == 0xAA && b[1] == 0x55);
        lemma_extract_at_sync(b, s);
        if k >= MIN_FRAME_LEN {
            assert(b[3] == f[3] && b[4] == f[4]);
            assert(from_be16(f[3], f[4]) == p.payload.len());
        }
    }
}

/// The frames an action list logs, in order.
pub open spec fn logged_frames(a: Seq<ActionView>) -> Seq<Seq<u8>>
    decreases a.len(),
{
    if a.len() == 0 {
        seq![]
    } else {
        match a[0] {
            ActionView::LogFrame(f) => seq![f] + logged_frames(a.drop_first()),
            _ => logged_frames(a.drop_first()),
        }
    }
}

/// Whether an action list broadcasts no link state.
pub open spec fn no_link_state(a: Seq<ActionView>) -> bool {
    forall|i: int| 0 <= i < a.len() ==> !(#[trigger] a[i] matches ActionView::Send(MessageView::LinkState { .. }))
}

/// A frame as the receive path cuts it: sync word, a declared payload length
/// within [`MAX_PAYLOAD_LEN`], and exactly the length that declares.
pub open spec fn well_shaped(f: Seq<u8>) -> bool {
    &&& f.len() >= MIN_FRAME_LEN
    &&& f[0] == 0xAA
    &&& f[1] == 0x55
    &&& from_be16(f[3], f[4]) <= MAX_PAYLOAD_LEN
    &&& f.len() == MIN_FRAME_LEN + from_be16(f[3], f[4])
}

/// The frames occur in `b` one after the other, in order and without
/// overlapping, each well shaped, and what is left over is a suffix of `b`
/// after the last of them.
pub open spec fn in_stream_order(b: Seq<u8>, fs: Seq<Seq<u8>>, rest: Seq<u8>) -> bool
    decreases fs.len(),
{
    if fs.len() == 0 {
        exists|k: int| 0 <= k <= b.len() && rest == b.skip(k)
    } else {
        &&& well_shaped(fs[0])
        &&& exists|k: int|
            #![trigger b.skip(k + fs[0].len())]
            0 <= k && k + fs[0].len() <= b.len() && b.subrange(k, k + fs[0].len()) == fs[0]
                && in_stream_order(b.skip(k + fs[0].len()), fs.drop_first(), rest)
    }
}

proof fn lemma_logged_frames_append(a: Seq<ActionView>, c: Seq<ActionView>)
    ensures
        logged_frames(a + c) == logged_frames(a) + logged_frames(c),
    decreases a.len(),
{
    if a.len() == 0 {
        assert(a + c =~= c);
    } else {
        assert((a + c).drop_first() =~= a.drop_first() + c);
        lemma_logged_frames_append(a.drop_first(), c);
        assert(logged_frames(a + c) =~= logged_frames(a) + logged_frames(c));
    }
}

proof fn lemma_sends_log_nothing(m: Seq<MessageView>)
    ensures
        logged_frames(sends(m)) == Seq::<Seq<u8>>::empty(),
    decreases m.len(),
{
    if m.len() > 0 {
        assert(sends(m).drop_first() =~= sends(m.drop_first()));
        lemma_sends_log_nothing(m.drop_first());
    }
}

proof fn lemma_in_stream_order_shift(b: Seq<u8>, i: int, fs: Seq<Seq<u8>>, rest: Seq<u8>)
    requires
        0 <= i <= b.len(),
        in_stream_order(b.skip(i), fs, rest),
    ensures
        in_stream_order(b, fs, rest),
    decreases fs.len(),
{
    if fs.len() == 0 {
        let k = choose|k: int| 0 <= k <= b.skip(i).len() && rest == b.skip(i).skip(k);
        assert(b.skip(i).skip(k) =~= b.skip(i + k));
    } else {
        let c = b.skip(i);
        let k = choose|k: int|
            #![trigger c.skip(k + fs[0].len())]
            0 <= k && k + fs[0].len() <= c.len() && c.subrange(k, k + fs[0].len()) == fs[0]
                && in_stream_order(c.skip(k + fs[0].len()), fs.drop_first(), rest);
        assert(b.subrange(i + k, i + k + fs[0].len()) =~= c.subrange(k, k + fs[0].len()));
        assert(c.skip(k + fs[0].len()) =~= b.skip(i + k + fs[0].len()));
    }
}

proof fn lemma_decoded_messages_no_link_state(s: StreamStats, r: Result<PacketView, DecodeError>)
    ensures
        no_link_state(sends(after_decoded(s, r).1)),
{
    let m = after_decoded(s, r).1;
    assert forall|i: int| 0 <= i < sends(m).len() implies !(#[trigger] sends(m)[i] matches ActionView::Send(MessageView::LinkState { .. })) by {
        match r {
            Ok(p) => {
                let sm = after_sequence(s, p.sequence).1;
                assert(m == seq![packet_message(p)] + sm + seq![MessageView::Stats { ok: after_sequence(s, p.sequence).0.ok, dropped: after_sequence(s, p.sequence).0.dropped }]);
                if i == 0 {
                } else if i <= sm.len() {
                    assert(m[i] == sm[i - 1]);
                } else {
                }
            },
            Err(_) => {},
        }
    }
}

proof fn lemma_no_link_state_append(a: Seq<ActionView>, c: Seq<ActionView>)
    requires
        no_link_state(a),
        no_link_state(c),
    ensures
        no_link_state(a + c),
{
    assert forall|i: int| 0 <= i < (a + c).len() implies !(#[trigger] (a + c)[i] matches ActionView::Send(MessageView::LinkState { .. })) by {
        if i < a.len() {
            assert((a + c)[i] == a[i]);
        } else {
            assert((a + c)[i] == c[i - a.len()]);
        }
    }
}

proof fn lemma_single_send_logs_nothing(m: MessageView)
    ensures
        logged_frames(seq![ActionView::Send(m)]) == Seq::<Seq<u8>>::empty(),
        no_link_state(seq![ActionView::Send(m)]) == !(m matches MessageView::LinkState { .. }),
{
    let one = seq![ActionView::Send(m)];
    assert(one.drop_first() =~= Seq::<ActionView>::empty());
    assert(logged_frames(one.drop_first()) == Seq::<Seq<u8>>::empty());
    if !no_link_state(one) {
        let i = choose|i: int| 0 <= i < one.len() && (#[trigger] one[i] matches ActionView::Send(MessageView::LinkState { .. }));
        assert(i == 0);
    }
    if m matches MessageView::LinkState { .. } {
        assert(one[0] matches ActionView::Send(MessageView::LinkState { .. }));
    }
}

/// The shape of what the receive path makes of a buffer that starts with the
/// sync word (see [`lemma_extract_shape`]).
proof fn lemma_synced_shape(c: Seq<u8>, s: StreamStats)
    requires
        c.len() >= 2,
        c[0] == 0xAA,
        c[1] == 0x55,
    ensures
        in_stream_order(c, logged_frames(extract_synced(c, s).2), extract_synced(c, s).0),
        extract_synced(c, s).0.len() <= MIN_FRAME_LEN + MAX_PAYLOAD_LEN - 1,
        no_link_state(extract_synced(c, s).2),
    decreases c.len(), 0nat,
{
    let rs = extract_synced(c, s);
    if c.len() < MIN_FRAME_LEN {
        assert(rs.0 == c.skip(0));
        assert(logged_frames(rs.2) =~= Seq::<Seq<u8>>::empty());
    } else if from_be16(c[3], c[4]) > MAX_PAYLOAD_LEN {
        let rr = extract(c.skip(2), s);
        lemma_extract_shape(c.skip(2), s);
        let m = oversized_message(from_be16(c[3], c[4]) as nat);
        let one = seq![ActionView::Send(m)];
        lemma_single_send_logs_nothing(m);
        lemma_logged_frames_append(one, rr.2);
        assert(logged_frames(one + rr.2) =~= logged_frames(rr.2));
        lemma_in_stream_order_shift(c, 2, logged_frames(rr.2), rr.0);
        lemma_no_link_state_append(one, rr.2);
    } else if c.len() < MIN_FRAME_LEN + from_be16(c[3], c[4]) {
        assert(rs.0 == c.skip(0));
        assert(logged_frames(rs.2) =~= Seq::<Seq<u8>>::empty());
    } else {
        let flen = MIN_FRAME_LEN + from_be16(c[3], c[4]);
        let frame = c.take(flen);
        let (s1, msgs) = after_frame(s, frame);
        let rr = extract(c.skip(flen), s1);
        lemma_extract_shape(c.skip(flen), s1);
        let head = seq![ActionView::LogFrame(frame)];
        assert(head.drop_first() =~= Seq::<ActionView>::empty());
        assert(logged_frames(head.drop_first()) == Seq::<Seq<u8>>::empty());
        assert(logged_frames(head) =~= seq![frame]);
        lemma_logged_frames_append(head, sends(msgs));
        lemma_sends_log_nothing(msgs);
        lemma_logged_frames_append(head + sends(msgs), rr.2);
        let fs = logged_frames(rs.2);
        assert(rs.2 == head + sends(msgs) + rr.2);
        assert(fs =~= seq![frame] + logged_frames(rr.2));
        assert(fs.drop_first() =~= logged_frames(rr.2));
        assert(c.subrange(0, frame.len() as int) =~= frame);
        assert(well_shaped(frame));
        assert(c.skip(0int + fs[0].len()) =~= c.skip(flen));
        assert(in_stream_order(c, fs, rr.0));
        lemma_decoded_messages_no_link_state(s, decode_frame(frame));
        assert(no_link_state(head));
        lemma_no_link_state_append(head, sends(msgs));
        lemma_no_link_state_append(head + sends(msgs), rr.2);
    }
}

/// What the receive path makes of a buffer, in general:
/// - the frames it logs occur in the buffer one after the other, in order,
///   without overlapping, each well shaped, and the bytes kept over are a
///   suffix of the buffer after the last of them;
/// - it keeps at most 268 bytes (a header and a payload one byte short of
///   the largest frame);
/// - it broadcasts no link state.
pub proof fn lemma_extract_shape(b: Seq<u8>, s: StreamStats)
    ensures
        in_stream_order(b, logged_frames(extract(b, s).2), extract(b, s).0),
        extract(b, s).0.len() <= MIN_FRAME_LEN + MAX_PAYLOAD_LEN - 1,
        no_link_state(extract(b, s).2),
    decreases b.len(), 1nat,
{
    let r = extract(b, s);
    if b.len() < 2 {
        assert(r.0 == b.skip(0));
        assert(logged_frames(r.2) =~= Seq::<Seq<u8>>::empty());
    } else {
        lemma_first_sync(b, 0);
        match first_sync_from(b, 0) {
            None => {
                if b.last() == 0xAA {
                    assert(r.0 =~= b.skip(b.len() - 1));
                } else {
                    assert(r.0 =~= b.skip(b.len() as int));
                }
                lemma_single_send_logs_nothing(no_sync_message());
            },
            Some(i) => {
                let c = b.skip(i as int);
                if i > 0 {
                    lemma_extract_after_stray(b, s, i);
                }
                lemma_synced_shape(c, s);
                let rs = extract_synced(c, s);
                if i > 0 {
                    lemma_extract_after_stray(b, s, i);
                    let m = stray_bytes_message(i);
                    let one = seq![ActionView::Send(m)];
                    lemma_single_send_logs_nothing(m);
                    lemma_logged_frames_append(one, rs.2);
                    assert(logged_frames(one + rs.2) =~= logged_frames(rs.2));
                    lemma_in_stream_order_shift(b, i as int, logged_frames(rs.2), rs.0);
                    lemma_no_link_state_append(one, rs.2);
                } else {
                    assert(c =~= b);
                    lemma_extract_at_sync(b, s);
                }
            },
        }
    }
}

/// The frames of a list of packets, one after the other.
pub open spec fn frames_concat(ps: Seq<PacketView>) -> Seq<u8>
    decreases ps.len(),
{
    if ps.len() == 0 {
        seq![]
    } else {
        encoded_frame(ps[0]) + frames_concat(ps.drop_first())
    }
}

/// Every packet's payload is within [`MAX_PAYLOAD_LEN`].
pub open spec fn payloads_fit(ps: Seq<PacketView>) -> bool {
    forall|i: int| 0 <= i < ps.len() ==> (#[trigger] ps[i]).payload.len() <= MAX_PAYLOAD_LEN
}

/// What the receive path does with the frames of these packets taken one by
/// one: each is logged, then accounted for as its packet.
pub open spec fn run_frames(ps: Seq<PacketView>, s: StreamStats) -> (StreamStats, Seq<ActionView>)
    decreases ps.len(),
{
    if ps.len() == 0 {
        (s, seq![])
    } else {
        let (s1, m) = after_decoded(s, Ok(ps[0]));
        let r = run_frames(ps.drop_first(), s1);
        (r.0, seq![ActionView::LogFrame(encoded_frame(ps[0]))] + sends(m) + r.1)
    }
}

/// The bytes of a list of chunks, one after the other.
pub open spec fn chunks_concat(cs: Seq<Seq<u8>>) -> Seq<u8>
    decreases cs.len(),
{
    if cs.len() == 0 {
        seq![]
    } else {
        cs[0] + chunks_concat(cs.drop_first())
    }
}

/// What successive calls of [`FrameExtractor::push_bytes`] with these chunks
/// make of a buffer and counters: the buffer and counters after the last
/// call, and the actions of all calls in order.
pub open spec fn push_chunks(buf: Seq<u8>, s: StreamStats, cs: Seq<Seq<u8>>) -> (Seq<u8>, StreamStats, Seq<ActionView>)
    decreases cs.len(),
{
    if cs.len() == 0 {
        (buf, s, seq![])
    } else {
        let r1 = extract(buf + cs[0], s);
        let r2 = push_chunks(r1.0, r1.1, cs.drop_first());
        (r2.0, r2.1, r1.2 + r2.2)
    }
}

/// `q` is the beginning, short of the whole, of the first of these frames
/// (or nothing, when there is no frame).
pub open spec fn partial_of(q: Seq<u8>, ps: Seq<PacketView>) -> bool {
    ||| ps.len() == 0 && q.len() == 0
    ||| ps.len() > 0 && q.len() < encoded_frame(ps[0]).len() && q == encoded_frame(ps[0]).take(q.len() as int)
}

proof fn lemma_fit_tail(ps: Seq<PacketView>, j: int)
    requires
        payloads_fit(ps),
        0 <= j <= ps.len(),
    ensures
        payloads_fit(ps.skip(j)),
        payloads_fit(ps.take(j)),
        ps.len() > 0 ==> payloads_fit(ps.drop_first()),
{
    assert forall|i: int| 0 <= i < ps.skip(j).len() implies (#[trigger] ps.skip(j)[i]).payload.len() <= MAX_PAYLOAD_LEN by {
        assert(ps.skip(j)[i] == ps[i + j]);
    }
    assert forall|i: int| 0 <= i < ps.take(j).len() implies (#[trigger] ps.take(j)[i]).payload.len() <= MAX_PAYLOAD_LEN by {
        assert(ps.take(j)[i] == ps[i]);
    }
    if ps.len() > 0 {
        assert forall|i: int| 0 <= i < ps.drop_first().len() implies (#[trigger] ps.drop_first()[i]).payload.len() <= MAX_PAYLOAD_LEN by {
            assert(ps.drop_first()[i] == ps[i + 1]);
        }
    }
}

proof fn lemma_frames_then_partial(ps: Seq<PacketView>, q: Seq<u8>, next: Seq<PacketView>, s: StreamStats)
    requires
        payloads_fit(ps),
        payloads_fit(next),
        partial_of(q, next),
    ensures
        extract(frames_concat(ps) + q, s) == (q, run_frames(ps, s).0, run_frames(ps, s).1),
    decreases ps.len(),
{
    if ps.len() == 0 {
        assert(frames_concat(ps) + q =~= q);
        if next.len() == 0 {
        } else {
            assert(next[0].payload.len() <= MAX_PAYLOAD_LEN);
            lemma_partial_frame_waits(next[0], s, q.len());
        }
    } else {
        let p = ps[0];
        assert(p.payload.len() <= MAX_PAYLOAD_LEN);
        lemma_fit_tail(ps, 0);
        let f = encoded_frame(p);
        let tail = frames_concat(ps.drop_first()) + q;
        let b = frames_concat(ps) + q;
        assert(b =~= f + tail);
        lemma_decode_inverts_encode(p);
        assert(f[0] == 0xAA && f[1] == 0x55);
        assert(b[0] == 0xAA && b[1] == 0x55);
        lemma_extract_at_sync(b, s);
        assert(from_be16(f[3], f[4]) == p.payload.len());
        assert(b[3] == f[3] && b[4] == f[4]);
        assert(b.take(f.len() as int) =~= f);
        assert(b.skip(f.len() as int) =~= tail);
        lemma_frames_then_partial(ps.drop_first(), q, next, after_decoded(s, Ok(p)).0);
    }
}

proof fn lemma_frames_concat_split(ps: Seq<PacketView>, j: int)
    requires
        0 <= j <= ps.len(),
    ensures
        frames_concat(ps) == frames_concat(ps.take(j)) + frames_concat(ps.skip(j)),
    decreases ps.len(),
{
    if j == 0 {
        assert(ps.take(0) =~= Seq::<PacketView>::empty());
        assert(ps.skip(0) =~= ps);
        assert(frames_concat(ps.take(0)) + frames_concat(ps) =~= frames_concat(ps));
    } else {
        lemma_frames_concat_split(ps.drop_first(), j - 1);
        assert(ps.take(j).drop_first() =~= ps.drop_first().take(j - 1));
        assert(ps.take(j)[0] == ps[0]);
        assert(ps.skip(j) =~= ps.drop_first().skip(j - 1));
        assert(frames_concat(ps) =~= frames_concat(ps.take(j)) + frames_concat(ps.skip(j)));
    }
}

proof fn lemma_run_frames_split(ps: Seq<PacketView>, j: int, s: StreamStats)
    requires
        0 <= j <= ps.len(),
    ensures
        ({
            let a = run_frames(ps.take(j), s);
            let b = run_frames(ps.skip(j), a.0);
            run_frames(ps, s) == (b.0, a.1 + b.1)
        }),
    decreases ps.len(),
{
    if j == 0 {
        assert(ps.take(0) =~= Seq::<PacketView>::empty());
        assert(ps.skip(0) =~= ps);
        assert(Seq::<ActionView>::empty() + run_frames(ps, s).1 =~= run_frames(ps, s).1);
    } else {
        let s1 = after_decoded(s, Ok(ps[0])).0;
        lemma_run_frames_split(ps.drop_first(), j - 1, s1);
        assert(ps.take(j).drop_first() =~= ps.drop_first().take(j - 1));
        assert(ps.take(j)[0] == ps[0]);
        assert(ps.skip(j) =~= ps.drop_first().skip(j - 1));
        let a = run_frames(ps.take(j), s);
        let b = run_frames(ps.skip(j), a.0);
        let head = seq![ActionView::LogFrame(encoded_frame(ps[0]))] + sends(after_decoded(s, Ok(ps[0])).1);
        assert(run_frames(ps, s).1 =~= a.1 + b.1) by {
            assert(a.1 == head + run_frames(ps.drop_first().take(j - 1), s1).1);
            assert(run_frames(ps, s).1 == head + run_frames(ps.drop_first(), s1).1);
        }
    }
}

proof fn lemma_prefix_decomposes(ps: Seq<PacketView>, n: int) -> (j: int)
    requires
        0 <= n <= frames_concat(ps).len(),
    ensures
        0 <= j <= ps.len(),
        frames_concat(ps.take(j)).len() <= n,
        frames_concat(ps).take(n) == frames_concat(ps.take(j)) + frames_concat(ps).take(n).skip(frames_concat(ps.take(j)).len() as int),
        partial_of(frames_concat(ps).take(n).skip(frames_concat(ps.take(j)).len() as int), ps.skip(j)),
    decreases ps.len(),
{
    let whole = frames_concat(ps);
    if ps.len() == 0 {
        assert(ps.take(0) =~= Seq::<PacketView>::empty());
        assert(ps.skip(0) =~= ps);
        assert(whole.take(n).skip(0) =~= whole.take(n));
        0
    } else {
        let f0 = encoded_frame(ps[0]);
        let rest = frames_concat(ps.drop_first());
        assert(whole =~= f0 + rest);
        if n < f0.len() {
            assert(ps.take(0) =~= Seq::<PacketView>::empty());
            assert(ps.skip(0) =~= ps);
            assert(whole.take(n).skip(0) =~= whole.take(n));
            assert(whole.take(n) =~= f0.take(n));
            0
        } else {
            let j1 = lemma_prefix_decomposes(ps.drop_first(), n - f0.len());
            let j = j1 + 1;
            assert(ps.take(j).drop_first() =~= ps.drop_first().take(j1));
            assert(ps.take(j)[0] == ps[0]);
            assert(ps.skip(j) =~= ps.drop_first().skip(j1));
            let c1 = frames_concat(ps.drop_first().take(j1));
            assert(frames_concat(ps.take(j)) =~= f0 + c1);
            let q1 = rest.take(n - f0.len()).skip(c1.len() as int);
            assert(whole.take(n) =~= f0 + rest.take(n - f0.len()));
            assert(whole.take(n).skip(frames_concat(ps.take(j)).len() as int) =~= q1);
            assert(whole.take(n) =~= frames_concat(ps.take(j)) + q1);
            j
        }
    }
}

proof fn lemma_partial_is_prefix(ps: Seq<PacketView>, q: Seq<u8>)
    requires
        partial_of(q, ps),
    ensures
        q == frames_concat(ps).take(q.len() as int),
        ps.len() == 0 ==> frames_concat(ps).len() == 0,
        ps.len() > 0 ==> q.len() < frames_concat(ps).len(),
{
    if ps.len() > 0 {
        let whole = frames_concat(ps);
        assert(whole =~= encoded_frame(ps[0]) + frames_concat(ps.drop_first()));
        assert(whole.take(q.len() as int) =~= encoded_frame(ps[0]).take(q.len() as int));
    }
}

proof fn lemma_next_chunk(whole: Seq<u8>, q: Seq<u8>, cs: Seq<Seq<u8>>)
    requires
        cs.len() > 0,
        q == whole.take(q.len() as int),
        q.len() <= whole.len(),
        chunks_concat(cs) == whole.skip(q.len() as int),
    ensures
        q.len() + cs[0].len() <= whole.len(),
        q + cs[0] == whole.take((q.len() + cs[0].len()) as int),
        chunks_concat(cs.drop_first()) == whole.skip((q.len() + cs[0].len()) as int),
{
    let c0 = cs[0];
    assert(chunks_concat(cs) =~= c0 + chunks_concat(cs.drop_first()));
    let n: int = (q.len() + c0.len()) as int;
    assert(c0 =~= whole.skip(q.len() as int).take(c0.len() as int));
    assert(q + c0 =~= whole.take(n));
    let rest = chunks_concat(cs.drop_first());
    assert(rest =~= (c0 + rest).skip(c0.len() as int));
    assert(whole.skip(q.len() as int).skip(c0.len() as int) =~= whole.skip(n));
    assert(rest =~= whole.skip(n));
}

proof fn lemma_rest_after_decomposition(ps: Seq<PacketView>, j: int, n: int, q2: Seq<u8>)
    requires
        0 <= j <= ps.len(),
        frames_concat(ps.take(j)).len() <= n <= frames_concat(ps).len(),
        q2 == frames_concat(ps).take(n).skip(frames_concat(ps.take(j)).len() as int),
    ensures
        frames_concat(ps).skip(n) == frames_concat(ps.skip(j)).skip(q2.len() as int),
        q2.len() <= frames_concat(ps.skip(j)).len(),
{
    lemma_frames_concat_split(ps, j);
    assert(frames_concat(ps).skip(n) =~= frames_concat(ps.skip(j)).skip(q2.len() as int));
}

#[verifier::rlimit(40)]
proof fn lemma_push_chunks_from_partial(ps: Seq<PacketView>, q: Seq<u8>, cs: Seq<Seq<u8>>, s: StreamStats)
    requires
        payloads_fit(ps),
        partial_of(q, ps),
        chunks_concat(cs) == frames_concat(ps).skip(q.len() as int),
    ensures
        push_chunks(q, s, cs) == (Seq::<u8>::empty(), run_frames(ps, s).0, run_frames(ps, s).1),
    decreases cs.len(),
{
    let whole = frames_concat(ps);
    lemma_partial_is_prefix(ps, q);
    if cs.len() == 0 {
        assert(whole.len() == q.len());
        assert(ps.len() == 0);
        assert(q =~= Seq::<u8>::empty());
    } else {
        lemma_next_chunk(whole, q, cs);
        let n: int = (q.len() + cs[0].len()) as int;
        let j = lemma_prefix_decomposes(ps, n);
        let q2 = whole.take(n).skip(frames_concat(ps.take(j)).len() as int);
        lemma_fit_tail(ps, j);
        lemma_frames_then_partial(ps.take(j), q2, ps.skip(j), s);
        let a = run_frames(ps.take(j), s);
        lemma_rest_after_decomposition(ps, j, n, q2);
        lemma_push_chunks_from_partial(ps.skip(j), q2, cs.drop_first(), a.0);
        lemma_run_frames_split(ps, j, s);
    }
}

/// Reassembly: however a stream of well-formed frames (payloads within
/// [`MAX_PAYLOAD_LEN`]) is split into chunks, pushing the chunks one after the
/// other into an empty buffer gives the same actions and counters as taking
/// the frames one by one, in particular the same as one push of the whole
/// stream, and leaves nothing over. The receive path then reports no sync or
/// length error.
pub proof fn lemma_any_split_same(ps: Seq<PacketView>, cs: Seq<Seq<u8>>, s: StreamStats)
    requires
        payloads_fit(ps),
        chunks_concat(cs) == frames_concat(ps),
    ensures
        push_chunks(Seq::<u8>::empty(), s, cs) == (Seq::<u8>::empty(), run_frames(ps, s).0, run_frames(ps, s).1),
        push_chunks(Seq::<u8>::empty(), s, cs) == push_chunks(Seq::<u8>::empty(), s, seq![frames_concat(ps)]),
{
    let e = Seq::<u8>::empty();
    if ps.len() > 0 {
        assert(e =~= encoded_frame(ps[0]).take(0));
    }
    assert(frames_concat(ps).skip(0) =~= frames_concat(ps));
    lemma_push_chunks_from_partial(ps, e, cs, s);
    let one = seq![frames_concat(ps)];
    assert(one.drop_first() =~= Seq::<Seq<u8>>::empty());
    assert(chunks_concat(one) =~= frames_concat(ps) + chunks_concat(one.drop_first()));
    assert(chunks_concat(one) =~= frames_concat(ps));
    lemma_push_chunks_from_partial(ps, e, one, s);
}

proof fn lemma_in_stream_order_compose(x: Seq<u8>, f1: Seq<Seq<u8>>, r: Seq<u8>, y: Seq<u8>, f2: Seq<Seq<u8>>, r2: Seq<u8>)
    requires
        in_stream_order(x, f1, r),
        in_stream_order(r + y, f2, r2),
    ensures
        in_stream_order(x + y, f1 + f2, r2),
    decreases f1.len(),
{
    if f1.len() == 0 {
        let k = choose|k: int| 0 <= k <= x.len() && r == x.skip(k);
        assert(r + y =~= (x + y).skip(k));
        assert(f1 + f2 =~= f2);
        lemma_in_stream_order_shift(x + y, k, f2, r2);
    } else {
        let f = f1[0];
        let k = choose|k: int|
            #![trigger x.skip(k + f.len())]
            0 <= k && k + f.len() <= x.len() && x.subrange(k, k + f.len()) == f
                && in_stream_order(x.skip(k + f.len()), f1.drop_first(), r);
        lemma_in_stream_order_compose(x.skip(k + f.len()), f1.drop_first(), r, y, f2, r2);
        assert((x + y).subrange(k, k + f.len()) =~= x.subrange(k, k + f.len()));
        assert((x + y).skip(k + f.len()) =~= x.skip(k + f.len()) + y);
        assert((f1 + f2)[0] == f);
        assert((f1 + f2).drop_first() =~= f1.drop_first() + f2);
        assert((x + y).skip(k + (f1 + f2)[0].len()) =~= x.skip(k + f.len()) + y);
    }
}

/// One more call of [`FrameExtractor::push_bytes`] extends a run of calls:
/// it works on the buffer and counters the run left, and its actions follow
/// the run's.
pub proof fn lemma_push_chunks_extend(buf: Seq<u8>, s: StreamStats, cs: Seq<Seq<u8>>, c: Seq<u8>)
    ensures
        ({
            let r = push_chunks(buf, s, cs);
            let e = extract(r.0 + c, r.1);
            push_chunks(buf, s, cs.push(c)) == (e.0, e.1, r.2 + e.2)
        }),
    decreases cs.len(),
{
    let cs2 = cs.push(c);
    if cs.len() == 0 {
        assert(cs2.drop_first() =~= Seq::<Seq<u8>>::empty());
        assert(cs2[0] == c);
        let e = extract(buf + c, s);
        let tail = push_chunks(e.0, e.1, cs2.drop_first());
        assert(tail == (e.0, e.1, Seq::<ActionView>::empty()));
        assert(push_chunks(buf, s, cs2) == (tail.0, tail.1, e.2 + tail.2));
        assert(e.2 + Seq::<ActionView>::empty() =~= e.2);
        assert(Seq::<ActionView>::empty() + e.2 =~= e.2);
    } else {
        let r1 = extract(buf + cs[0], s);
        lemma_push_chunks_extend(r1.0, r1.1, cs.drop_first(), c);
        assert(cs2.drop_first() =~= cs.drop_first().push(c));
        assert(cs2[0] == cs[0]);
        let rest = push_chunks(r1.0, r1.1, cs.drop_first());
        let e = extract(rest.0 + c, rest.1);
        assert(push_chunks(buf, s, cs) == (rest.0, rest.1, r1.2 + rest.2));
        let tail = push_chunks(r1.0, r1.1, cs2.drop_first());
        assert(tail == (e.0, e.1, rest.2 + e.2));
        assert(push_chunks(buf, s, cs2) == (tail.0, tail.1, r1.2 + tail.2));
        assert(r1.2 + (rest.2 + e.2) =~= (r1.2 + rest.2) + e.2);
    }
}

/// Over successive calls of [`FrameExtractor::push_bytes`], from any buffer:
/// the frames logged occur in the buffer followed by all the chunks, one
/// after the other, in order, without overlapping, each well shaped; the
/// bytes kept over are a suffix after the last of them, at most 268 bytes
/// whenever a chunk was pushed; and no link state is broadcast.
pub proof fn lemma_push_chunks_in_order(buf: Seq<u8>, s: StreamStats, cs: Seq<Seq<u8>>)
    ensures
        in_stream_order(buf + chunks_concat(cs), logged_frames(push_chunks(buf, s, cs).2), push_chunks(buf, s, cs).0),
        cs.len() > 0 ==> push_chunks(buf, s, cs).0.len() <= MIN_FRAME_LEN + MAX_PAYLOAD_LEN - 1,
        no_link_state(push_chunks(buf, s, cs).2),
    decreases cs.len(),
{
    if cs.len() == 0 {
        assert(buf + chunks_concat(cs) =~= buf);
        assert(buf.skip(0) =~= buf);
        assert(logged_frames(Seq::<ActionView>::empty()) == Seq::<Seq<u8>>::empty());
        assert(in_stream_order(buf, Seq::<Seq<u8>>::empty(), buf.skip(0)));
    } else {
        let c0 = cs[0];
        let r1 = extract(buf + c0, s);
        lemma_extract_shape(buf + c0, s);
        let rest = cs.drop_first();
        lemma_push_chunks_in_order(r1.0, r1.1, rest);
        let r2 = push_chunks(r1.0, r1.1, rest);
        lemma_in_stream_order_compose(buf + c0, logged_frames(r1.2), r1.0, chunks_concat(rest), logged_frames(r2.2), r2.0);
        assert(chunks_concat(cs) =~= c0 + chunks_concat(rest));
        assert(buf + c0 + chunks_concat(rest) =~= buf + chunks_concat(cs));
        lemma_logged_frames_append(r1.2, r2.2);
        lemma_no_link_state_append(r1.2, r2.2);
        if rest.len() == 0 {
            assert(r2.0 == r1.0);
        }
    }
}

/// The counters and messages after a run of sequence numbers, one packet
/// after the other.
pub open spec fn sequences_after(s: StreamStats, seqs: Seq<u16>) -> (StreamStats, Seq<MessageView>)
    decreases seqs.len(),
{
    if seqs.len() == 0 {
        (s, seq![])
    } else {
        let r1 = after_sequence(s, seqs[0]);
        let r2 = sequences_after(r1.0, seqs.drop_first());
        (r2.0, r1.1 + r2.1)
    }
}

/// `n` consecutive sequence numbers from `start`, wrapping after 65535.
pub open spec fn consecutive(start: u16, n: nat) -> Seq<u16>
    decreases n,
{
    if n == 0 {
        seq![]
    } else {
        seq![start] + consecutive(start.wrapping_add(1), (n - 1) as nat)
    }
}

/// The packet expected next: an in-order packet counts once as received, the
/// lost count does not move, the expected number moves on by one (wrapping
/// after 65535), and nothing is reported.
pub proof fn lemma_in_order_packet(s: StreamStats, e: u16)
    requires
        s.expected_seq == Some(e),
    ensures
        after_sequence(s, e).0.ok == s.ok.saturating_add(1),
        after_sequence(s, e).0.dropped == s.dropped,
        after_sequence(s, e).0.expected_seq == Some(e.wrapping_add(1)),
        after_sequence(s, e).1.len() == 0,
{
}

/// A duplicate, the number just before the one expected, is reported as a
/// duplicate and changes nothing: not the received count, not the lost
/// count, not the number expected next.
pub proof fn lemma_duplicate_changes_nothing(s: StreamStats, e: u16)
    requires
        s.expected_seq == Some(e),
    ensures
        after_sequence(s, e.wrapping_sub(1)).0 == s,
        after_sequence(s, e.wrapping_sub(1)).1 == seq![sequence_error("Duplicate packet"@, e, e.wrapping_sub(1))],
{
    assert(e.wrapping_sub(1) != e);
}

/// A packet received twice in a row counts once: the second copy changes
/// none of the counters and is reported as a duplicate of it.
pub proof fn lemma_repeat_counts_once(s: StreamStats, x: u16)
    requires
        s.expected_seq is None || s.expected_seq == Some(x),
    ensures
        after_sequence(after_sequence(s, x).0, x).0 == after_sequence(s, x).0,
        after_sequence(after_sequence(s, x).0, x).1 == seq![sequence_error("Duplicate packet"@, x.wrapping_add(1), x)],
{
    assert(x.wrapping_add(1).wrapping_sub(1) == x);
    assert(x != x.wrapping_add(1));
}

/// A packet past the one expected counts as received, the numbers skipped
/// count as lost, and the gap is reported.
pub proof fn lemma_gap_counts_lost(s: StreamStats, e: u16, x: u16)
    requires
        s.expected_seq == Some(e),
        x > e,
        x != e.wrapping_sub(1),
    ensures
        after_sequence(s, x).0.ok == s.ok.saturating_add(1),
        after_sequence(s, x).0.dropped == s.dropped.saturating_add((x - e) as u32),
        after_sequence(s, x).0.expected_seq == Some(x.wrapping_add(1)),
        after_sequence(s, x).1 == seq![sequence_error("Skipped/dropped packet(s)"@, e, x)],
{
}

proof fn lemma_sequences_append(s: StreamStats, a: Seq<u16>, b: Seq<u16>)
    ensures
        sequences_after(s, a + b) == (
            sequences_after(sequences_after(s, a).0, b).0,
            sequences_after(s, a).1 + sequences_after(sequences_after(s, a).0, b).1,
        ),
    decreases a.len(),
{
    if a.len() == 0 {
        assert(a + b =~= b);
        assert(Seq::<MessageView>::empty() + sequences_after(s, b).1 =~= sequences_after(s, b).1);
    } else {
        let r1 = after_sequence(s, a[0]);
        assert((a + b).drop_first() =~= a.drop_first() + b);
        assert((a + b)[0] == a[0]);
        lemma_sequences_append(r1.0, a.drop_first(), b);
        let ra = sequences_after(r1.0, a.drop_first());
        let rb = sequences_after(ra.0, b);
        assert(r1.1 + (ra.1 + rb.1) =~= (r1.1 + ra.1) + rb.1);
    }
}

/// A run of consecutive sequence numbers, starting with the one expected (or
/// on fresh counters), counts every packet as received, loses none, reports
/// nothing, and leaves the number after the last one expected.
pub proof fn lemma_consecutive_run(s: StreamStats, start: u16, n: nat)
    requires
        s.expected_seq is None || s.expected_seq == Some(start),
        s.ok + n <= u32::MAX,
    ensures
        sequences_after(s, consecutive(start, n)).0.ok == s.ok + n,
        sequences_after(s, consecutive(start, n)).0.dropped == s.dropped,
        sequences_after(s, consecutive(start, n)).1.len() == 0,
        n > 0 ==> sequences_after(s, consecutive(start, n)).0.expected_seq == Some(consecutive(start, n).last().wrapping_add(1)),
        n == 0 ==> sequences_after(s, consecutive(start, n)).0.expected_seq == s.expected_seq,
    decreases n,
{
    if n > 0 {
        let c = consecutive(start, n);
        let rest = consecutive(start.wrapping_add(1), (n - 1) as nat);
        assert(c.drop_first() =~= rest);
        assert(c[0] == start);
        let s1 = after_sequence(s, start).0;
        lemma_consecutive_run(s1, start.wrapping_add(1), (n - 1) as nat);
        let r = sequences_after(s1, rest);
        assert(after_sequence(s, start).1 + r.1 =~= Seq::<MessageView>::empty());
        if n > 1 {
            assert(c.last() == rest.last());
        }
    }
}

/// Receive accounting counts each distinct packet once: a run of consecutive
/// sequence numbers in which one packet arrives twice in a row gives the
/// same counters as the run without the repeat, and the repeat is reported
/// once, as a duplicate.
pub proof fn lemma_run_with_repeat(s: StreamStats, start: u16, n: nat, m: nat)
    requires
        s.expected_seq is None || s.expected_seq == Some(start),
        n > 0,
        s.ok + n + m <= u32::MAX,
    ensures
        ({
            let first = consecutive(start, n);
            let x = first.last();
            let second = consecutive(x.wrapping_add(1), m);
            let r = sequences_after(s, first + seq![x] + second);
            &&& r.0.ok == s.ok + n + m
            &&& r.0.dropped == s.dropped
            &&& r.1 == seq![sequence_error("Duplicate packet"@, x.wrapping_add(1), x)]
        }),
{
    let first = consecutive(start, n);
    let x = first.last();
    let second = consecutive(x.wrapping_add(1), m);
    lemma_consecutive_run(s, start, n);
    let s1 = sequences_after(s, first).0;
    assert(x.wrapping_add(1).wrapping_sub(1) == x);
    assert(x != x.wrapping_add(1));
    let s2 = after_sequence(s1, x).0;
    assert(s2 == s1);
    lemma_consecutive_run(s2, x.wrapping_add(1), m);
    lemma_sequences_append(s, first + seq![x], second);
    lemma_sequences_append(s, first, seq![x]);
    let one = seq![x];
    assert(one.drop_first() =~= Seq::<u16>::empty());
    assert(one[0] == x);
    assert(sequences_after(s2, one.drop_first()) == (s2, Seq::<MessageView>::empty()));
    assert(sequences_after(s1, one) == (s1, after_sequence(s1, x).1 + Seq::<MessageView>::empty()));
    assert(after_sequence(s1, x).1 + Seq::<MessageView>::empty() =~= after_sequence(s1, x).1);
    let r = sequences_after(s, first + seq![x] + second);
    assert(r.1 =~= Seq::<MessageView>::empty() + after_sequence(s1, x).1 + sequences_after(s2, second).1);
}

/// A well-formed frame that repeats the packet just before the one expected
/// changes none of the counters: it is reported as received, then as a
/// duplicate, then the unchanged counters are reported.
pub proof fn lemma_duplicate_frame_changes_nothing(s: StreamStats, p: PacketView, e: u16)
    requires
        s.expected_seq == Some(e),
        p.sequence == e.wrapping_sub(1),
        p.payload.len() <= u16::MAX,
    ensures
        after_frame(s, encoded_frame(p)).0 == s,
        after_frame(s, encoded_frame(p)).1 == seq![
            packet_message(p),
            sequence_error("Duplicate packet"@, e, p.sequence),
            MessageView::Stats { ok: s.ok, dropped: s.dropped },
        ],
{
    lemma_decode_inverts_encode(p);
    lemma_duplicate_changes_nothing(s, e);
    assert(after_frame(s, encoded_frame(p)).1 =~= seq![
            packet_message(p),
            sequence_error("Duplicate packet"@, e, p.sequence),
            MessageView::Stats { ok: s.ok, dropped: s.dropped },
        ]);
}

} // verus!
