//! The session logger: error-event counting, sequence tracking and the
//! updates it reports while it records a simulated or live session.

use crate::packet::{result_view, DecodeError, Packet, PacketView};
use crate::stream::{decode_error_text, describe_decode_error, sequence_text};
use crate::text::{decimal, push_decimal, push_str};
use vstd::prelude::*;
use vstd::string::*;

verus! {

broadcast use vstd::string::group_string_axioms;

/// A sequence irregularity.
#[derive(Clone, Copy, Debug, PartialEq, Eq, Structural)]
pub enum SequenceError {
    Skipped,
    Duplicate,
    OutOfOrder,
}

/// An event the logger writes to its error file and counts.
#[derive(Clone, Copy, Debug, PartialEq, Eq, Structural)]
pub enum LogEvent {
    PacketTooShort,
    InvalidSync,
    LengthMismatch,
    CrcMismatch,
    Sequence(SequenceError),
}

/// The event that records a decoding error.
pub open spec fn event_of(e: DecodeError) -> LogEvent {
    match e {
        DecodeError::PacketTooShort { .. } => LogEvent::PacketTooShort,
        DecodeError::InvalidSync { .. } => LogEvent::InvalidSync,
        DecodeError::LengthMismatch { .. } => LogEvent::LengthMismatch,
        DecodeError::CrcMismatch { .. } => LogEvent::CrcMismatch,
    }
}

/// The `Debug` text of an event, as the error file shows it.
pub open spec fn event_text(e: LogEvent) -> Seq<char> {
    match e {
        LogEvent::PacketTooShort => "PacketTooShort"@,
        LogEvent::InvalidSync => "InvalidSync"@,
        LogEvent::LengthMismatch => "LengthMismatch"@,
        LogEvent::CrcMismatch => "CrcMismatch"@,
        LogEvent::Sequence(SequenceError::Skipped) => "Sequence(Skipped)"@,
        LogEvent::Sequence(SequenceError::Duplicate) => "Sequence(Duplicate)"@,
        LogEvent::Sequence(SequenceError::OutOfOrder) => "Sequence(OutOfOrder)"@,
    }
}

impl<'a> From<&'a DecodeError> for LogEvent {
    /// The event that records a decoding error.
    fn from(err: &'a DecodeError) -> (e: LogEvent) {
        match err {
            DecodeError::PacketTooShort { .. } => LogEvent::PacketTooShort,
            DecodeError::InvalidSync { .. } => LogEvent::InvalidSync,
            DecodeError::LengthMismatch { .. } => LogEvent::LengthMismatch,
            DecodeError::CrcMismatch { .. } => LogEvent::CrcMismatch,
        }
    }
}

impl<'a> vstd::std_specs::convert::FromSpecImpl<&'a DecodeError> for LogEvent {
    open spec fn obeys_from_spec() -> bool {
        true
    }

    open spec fn from_spec(err: &'a DecodeError) -> LogEvent {
        event_of(*err)
    }
}

impl LogEvent {

    /// The event as the error file shows it.
    pub fn text(&self) -> (s: String)
        ensures
            s@ == event_text(*self),
    {
        match self {
            LogEvent::PacketTooShort => String::from_str("PacketTooShort"),
            LogEvent::InvalidSync => String::from_str("InvalidSync"),
            LogEvent::LengthMismatch => String::from_str("LengthMismatch"),
            LogEvent::CrcMismatch => String::from_str("CrcMismatch"),
            LogEvent::Sequence(SequenceError::Skipped) => String::from_str("Sequence(Skipped)"),
            LogEvent::Sequence(SequenceError::Duplicate) => String::from_str("Sequence(Duplicate)"),
            LogEvent::Sequence(SequenceError::OutOfOrder) => String::from_str("Sequence(OutOfOrder)"),
        }
    }
}

/// How many events of each kind were logged.
#[derive(Clone, Copy, Debug, PartialEq, Eq, Structural)]
pub struct ErrorStats {
    pub packet_too_short: usize,
    pub invalid_sync: usize,
    pub length_mismatch: usize,
    pub crc_mismatch: usize,
    pub skipped: usize,
    pub duplicate: usize,
    pub out_of_order: usize,
}

/// The counter an event increments.
pub open spec fn counter_of(s: ErrorStats, e: LogEvent) -> usize {
    match e {
        LogEvent::PacketTooShort => s.packet_too_short,
        LogEvent::InvalidSync => s.invalid_sync,
        LogEvent::LengthMismatch => s.length_mismatch,
        LogEvent::CrcMismatch => s.crc_mismatch,
        LogEvent::Sequence(SequenceError::Skipped) => s.skipped,
        LogEvent::Sequence(SequenceError::Duplicate) => s.duplicate,
        LogEvent::Sequence(SequenceError::OutOfOrder) => s.out_of_order,
    }
}

/// The counters after one more event: its own counter is one higher, the
/// others are unchanged.
pub open spec fn recorded(s: ErrorStats, e: LogEvent) -> ErrorStats {
    match e {
        LogEvent::PacketTooShort => ErrorStats { packet_too_short: (s.packet_too_short + 1) as usize, ..s },
        LogEvent::InvalidSync => ErrorStats { invalid_sync: (s.invalid_sync + 1) as usize, ..s },
        LogEvent::LengthMismatch => ErrorStats { length_mismatch: (s.length_mismatch + 1) as usize, ..s },
        LogEvent::CrcMismatch => ErrorStats { crc_mismatch: (s.crc_mismatch + 1) as usize, ..s },
        LogEvent::Sequence(SequenceError::Skipped) => ErrorStats { skipped: (s.skipped + 1) as usize, ..s },
        LogEvent::Sequence(SequenceError::Duplicate) => ErrorStats { duplicate: (s.duplicate + 1) as usize, ..s },
        LogEvent::Sequence(SequenceError::OutOfOrder) => ErrorStats { out_of_order: (s.out_of_order + 1) as usize, ..s },
    }
}

/// The breakdown of the counters, as the end-of-session summary prints it.
pub open spec fn breakdown_text(s: ErrorStats) -> Seq<char> {
    "Packet too short: "@ + decimal(s.packet_too_short as nat) + "\n\n            Invalid sync: "@
        + decimal(s.invalid_sync as nat) + "\n\n            Length mismatch: "@ + decimal(s.length_mismatch as nat)
        + "\n\n            CRC mismatch: "@ + decimal(s.crc_mismatch as nat) + "\n\n            Skipped: "@
        + decimal(s.skipped as nat) + "\n\n            Duplicate: "@ + decimal(s.duplicate as nat)
        + "\n\n            Out of order: "@ + decimal(s.out_of_order as nat)
}

impl ErrorStats {
    /// No event logged yet.
    pub fn new() -> (s: Self)
        ensures
            s == (ErrorStats { packet_too_short: 0, invalid_sync: 0, length_mismatch: 0, crc_mismatch: 0, skipped: 0, duplicate: 0, out_of_order: 0 }),
    {
        ErrorStats { packet_too_short: 0, invalid_sync: 0, length_mismatch: 0, crc_mismatch: 0, skipped: 0, duplicate: 0, out_of_order: 0 }
    }

    /// Counts one event.
    pub fn record(&mut self, event: &LogEvent)
        requires
            counter_of(*old(self), *event) < usize::MAX,
        ensures
            *final(self) == recorded(*old(self), *event),
    {
        match event {
            LogEvent::PacketTooShort => self.packet_too_short = self.packet_too_short + 1,
            LogEvent::InvalidSync => self.invalid_sync = self.invalid_sync + 1,
            LogEvent::LengthMismatch => self.length_mismatch = self.length_mismatch + 1,
            LogEvent::CrcMismatch => self.crc_mismatch = self.crc_mismatch + 1,
            LogEvent::Sequence(seq_err) => match seq_err {
                SequenceError::Skipped => self.skipped = self.skipped + 1,
                SequenceError::Duplicate => self.duplicate = self.duplicate + 1,
                SequenceError::OutOfOrder => self.out_of_order = self.out_of_order + 1,
            },
        }
    }

    /// The breakdown of the counters for the end-of-session summary.
    pub fn to_string(&self) -> (s: String)
        ensures
            s@ == breakdown_text(*self),
    {
        let mut s = String::from_str("Packet too short: ");
        push_decimal(&mut s, self.packet_too_short as u64);
        push_str(&mut s, "\n\n            Invalid sync: ");
        push_decimal(&mut s, self.invalid_sync as u64);
        push_str(&mut s, "\n\n            Length mismatch: ");
        push_decimal(&mut s, self.length_mismatch as u64);
        push_str(&mut s, "\n\n            CRC mismatch: ");
        push_decimal(&mut s, self.crc_mismatch as u64);
        push_str(&mut s, "\n\n            Skipped: ");
        push_decimal(&mut s, self.skipped as u64);
        push_str(&mut s, "\n\n            Duplicate: ");
        push_decimal(&mut s, self.duplicate as u64);
        push_str(&mut s, "\n\n            Out of order: ");
        push_decimal(&mut s, self.out_of_order as u64);
        s
    }
}

/// An update the logger hands to whoever follows a simulated session.
#[derive(Debug, Clone, PartialEq, Eq)]
pub enum LoggerUpdate {
    FrameReceived { seq: u16, timestamp: u32, payload: Vec<u8> },
    Stats { ok: u32, dropped: u32 },
    Error { kind: String, detail: String },
}

/// The mathematical content of a [`LoggerUpdate`].
pub enum UpdateView {
    FrameReceived { seq: u16, timestamp: u32, payload: Seq<u8> },
    Stats { ok: u32, dropped: u32 },
    Error { kind: Seq<char>, detail: Seq<char> },
}

impl View for LoggerUpdate {
    type V = UpdateView;

    open spec fn view(&self) -> UpdateView {
        match self {
            LoggerUpdate::FrameReceived { seq, timestamp, payload } => UpdateView::FrameReceived {
                seq: *seq,
                timestamp: *timestamp,
                payload: payload@,
            },
            LoggerUpdate::Stats { ok, dropped } => UpdateView::Stats { ok: *ok, dropped: *dropped },
            LoggerUpdate::Error { kind, detail } => UpdateView::Error { kind: kind@, detail: detail@ },
        }
    }
}

/// One thing the logger does after a frame: write an event line to its
/// error file (`[event] detail`), or hand out an update.
#[derive(Debug, Clone, PartialEq, Eq)]
pub enum LoggerStep {
    Event(LogEvent, String),
    Update(LoggerUpdate),
}

/// The mathematical content of a [`LoggerStep`].
pub enum StepView {
    Event(LogEvent, Seq<char>),
    Update(UpdateView),
}

impl View for LoggerStep {
    type V = StepView;

    open spec fn view(&self) -> StepView {
        match self {
            LoggerStep::Event(e, d) => StepView::Event(*e, d@),
            LoggerStep::Update(u) => StepView::Update(u@),
        }
    }
}

/// The views of a list of steps.
pub open spec fn steps_view(s: Seq<LoggerStep>) -> Seq<StepView> {
    s.map_values(|x: LoggerStep| x@)
}

/// The error update of a simulated session, which carries no kind.
pub open spec fn error_update(detail: Seq<char>) -> StepView {
    StepView::Update(UpdateView::Error { kind: "..."@, detail })
}

/// What the logger tracks over a session: frames accepted, frames lost, the
/// sequence number expected next, and the event counters.
pub struct LogTracker {
    pub ok: u16,
    pub dropped: u16,
    pub expected_seq: Option<u16>,
    pub stats: ErrorStats,
}

/// The tracker and steps after one decoding result in a simulated session.
/// A packet is handed out, then its sequence number is checked as the
/// receive path does; a decoding error is logged, counted as lost, and
/// advances the expected number. The counters are handed out last.
pub open spec fn simulated_step(t: LogTracker, r: Result<PacketView, DecodeError>) -> (LogTracker, Seq<StepView>) {
    let (t2, mid) = match r {
        Ok(p) => {
            let frame = StepView::Update(UpdateView::FrameReceived { seq: p.sequence, timestamp: p.timestamp, payload: p.payload });
            let s = p.sequence;
            match t.expected_seq {
                None => (LogTracker { ok: (t.ok + 1) as u16, expected_seq: Some(s.wrapping_add(1)), ..t }, seq![frame]),
                Some(e) => if s == e {
                    (LogTracker { ok: (t.ok + 1) as u16, expected_seq: Some(e.wrapping_add(1)), ..t }, seq![frame])
                } else if s == e.wrapping_sub(1) {
                    let d = sequence_text("Duplicate packet"@, e, s);
                    let ev = LogEvent::Sequence(SequenceError::Duplicate);
                    (LogTracker { stats: recorded(t.stats, ev), ..t }, seq![frame, StepView::Event(ev, d), error_update(d)])
                } else if s > e {
                    let d = sequence_text("Skipped/dropped packet(s)"@, e, s);
                    let ev = LogEvent::Sequence(SequenceError::Skipped);
                    (
                        LogTracker {
                            ok: (t.ok + 1) as u16,
                            dropped: (t.dropped + (s - e)) as u16,
                            expected_seq: Some(s.wrapping_add(1)),
                            stats: recorded(t.stats, ev),
                        },
                        seq![frame, StepView::Event(ev, d), error_update(d)],
                    )
                } else {
                    let ev = LogEvent::Sequence(SequenceError::OutOfOrder);
                    (
                        LogTracker { stats: recorded(t.stats, ev), ..t },
                        seq![
                            frame,
                            StepView::Event(ev, sequence_text("Out-of-order packet"@, e, s)),
                            error_update(sequence_text("Out of order packet"@, e, s)),
                        ],
                    )
                },
            }
        },
        Err(err) => {
            let ev = event_of(err);
            let d = decode_error_text(err);
            (
                LogTracker {
                    ok: t.ok,
                    dropped: (t.dropped + 1) as u16,
                    expected_seq: match t.expected_seq {
                        Some(x) => Some(x.wrapping_add(1)),
                        None => None,
                    },
                    stats: recorded(t.stats, ev),
                },
                seq![StepView::Event(ev, d), error_update(d)],
            )
        },
    };
    (t2, mid.push(StepView::Update(UpdateView::Stats { ok: t2.ok as u32, dropped: t2.dropped as u32 })))
}

/// The counters of a tracker do not overflow on this decoding result.
pub open spec fn step_fits(t: LogTracker, r: Result<PacketView, DecodeError>) -> bool {
    match r {
        Ok(p) => match t.expected_seq {
            None => t.ok < u16::MAX,
            Some(e) => if p.sequence == e {
                t.ok < u16::MAX
            } else if p.sequence == e.wrapping_sub(1) {
                t.stats.duplicate < usize::MAX
            } else if p.sequence > e {
                &&& t.ok < u16::MAX
                &&& t.dropped + (p.sequence - e) <= u16::MAX
                &&& t.stats.skipped < usize::MAX
            } else {
                t.stats.out_of_order < usize::MAX
            },
        },
        Err(err) => t.dropped < u16::MAX && counter_of(t.stats, event_of(err)) < usize::MAX,
    }
}

/// The tracker and event lines after one decoding result in a live session.
/// Unlike a simulated session, a skipped number does not move the expected
/// number, and nothing is handed out.
pub open spec fn live_step(t: LogTracker, r: Result<PacketView, DecodeError>) -> (LogTracker, Seq<StepView>) {
    match r {
        Ok(p) => {
            let s = p.sequence;
            match t.expected_seq {
                None => (LogTracker { ok: (t.ok + 1) as u16, expected_seq: Some(s.wrapping_add(1)), ..t }, seq![]),
                Some(e) => if s == e {
                    (LogTracker { ok: (t.ok + 1) as u16, expected_seq: Some(e.wrapping_add(1)), ..t }, seq![])
                } else if s == e.wrapping_sub(1) {
                    let ev = LogEvent::Sequence(SequenceError::Duplicate);
                    (LogTracker { stats: recorded(t.stats, ev), ..t }, seq![StepView::Event(ev, sequence_text("duplicate packet"@, e, s))])
                } else if s > e {
                    let ev = LogEvent::Sequence(SequenceError::Skipped);
                    (
                        LogTracker { ok: (t.ok + 1) as u16, dropped: (t.dropped + (s - e)) as u16, stats: recorded(t.stats, ev), ..t },
                        seq![StepView::Event(ev, sequence_text("Skipped/dropped packet(s)"@, e, s))],
                    )
                } else {
                    let ev = LogEvent::Sequence(SequenceError::OutOfOrder);
                    (LogTracker { stats: recorded(t.stats, ev), ..t }, seq![StepView::Event(ev, sequence_text("Out of order packet"@, e, s))])
                },
            }
        },
        Err(err) => {
            let ev = event_of(err);
            (
                LogTracker {
                    ok: t.ok,
                    dropped: (t.dropped + 1) as u16,
                    expected_seq: match t.expected_seq {
                        Some(x) => Some(x.wrapping_add(1)),
                        None => None,
                    },
                    stats: recorded(t.stats, ev),
                },
                seq![StepView::Event(ev, decode_error_text(err))],
            )
        },
    }
}

/// `\nTITLE RESULTS:\nTotal frames: …\nSuccessful frames: …\nFailed frames: …\nBreakdown: …\n`.
pub open spec fn summary_text(title: Seq<char>, t: LogTracker) -> Seq<char> {
    "\n"@ + title + " RESULTS:\nTotal frames: "@ + decimal((t.ok + t.dropped) as nat) + "\nSuccessful frames: "@
        + decimal(t.ok as nat) + "\nFailed frames: "@ + decimal(t.dropped as nat) + "\nBreakdown: "@
        + breakdown_text(t.stats) + "\n"@
}

fn sequence_line(prefix: &str, expected: u16, got: u16) -> (s: String)
    ensures
        s@ == sequence_text(prefix@, expected, got),
{
    let mut s = String::from_str(prefix);
    push_str(&mut s, ": expected ");
    push_decimal(&mut s, expected as u64);
    push_str(&mut s, ", got ");
    push_decimal(&mut s, got as u64);
    s
}

fn error_step(detail: String) -> (u: LoggerStep)
    ensures
        u@ == error_update(detail@),
{
    LoggerStep::Update(LoggerUpdate::Error { kind: String::from_str("..."), detail })
}

impl LogTracker {
    /// Nothing received yet.
    pub fn new() -> (t: Self)
        ensures
            t.ok == 0 && t.dropped == 0 && t.expected_seq is None && t.stats == ErrorStats::new_spec(),
    {
        LogTracker { ok: 0, dropped: 0, expected_seq: None, stats: ErrorStats::new() }
    }

    /// Whether the counters can take this decoding result without overflow.
    pub fn fits(&self, result: &Result<Packet, DecodeError>) -> (r: bool)
        ensures
            r == step_fits(*self, result_view(*result)),
    {
        match result {
            Ok(p) => match self.expected_seq {
                None => self.ok < u16::MAX,
                Some(e) => if p.sequence == e {
                    self.ok < u16::MAX
                } else if p.sequence == e.wrapping_sub(1) {
                    self.stats.duplicate < usize::MAX
                } else if p.sequence > e {
                    self.ok < u16::MAX && (p.sequence - e) <= u16::MAX - self.dropped && self.stats.skipped < usize::MAX
                } else {
                    self.stats.out_of_order < usize::MAX
                },
            },
            Err(err) => {
                let counter = match err {
                    DecodeError::PacketTooShort { .. } => self.stats.packet_too_short,
                    DecodeError::InvalidSync { .. } => self.stats.invalid_sync,
                    DecodeError::LengthMismatch { .. } => self.stats.length_mismatch,
                    DecodeError::CrcMismatch { .. } => self.stats.crc_mismatch,
                };
                self.dropped < u16::MAX && counter < usize::MAX
            },
        }
    }

    /// Accounts for one decoding result of a simulated session; returns the
    /// lines to write and the updates to hand out, in order.
    pub fn observe_simulated(&mut self, result: Result<Packet, DecodeError>) -> (steps: Vec<LoggerStep>)
        requires
            step_fits(*old(self), result_view(result)),
        ensures
            (*final(self), steps_view(steps@)) == simulated_step(*old(self), result_view(result)),
    {
        let mut steps: Vec<LoggerStep> = Vec::new();
        match result {
            Ok(packet) => {
                let s = packet.sequence;
                steps.push(LoggerStep::Update(LoggerUpdate::FrameReceived { seq: s, timestamp: packet.timestamp, payload: packet.payload }));
                match self.expected_seq {
                    None => {
                        self.ok = self.ok + 1;
                        self.expected_seq = Some(s.wrapping_add(1));
                    },
                    Some(e) => {
                        if s == e {
                            self.ok = self.ok + 1;
                            self.expected_seq = Some(e.wrapping_add(1));
                        } else if s == e.wrapping_sub(1) {
                            let ev = LogEvent::Sequence(SequenceError::Duplicate);
                            self.stats.record(&ev);
                            steps.push(LoggerStep::Event(ev, sequence_line("Duplicate packet", e, s)));
                            steps.push(error_step(sequence_line("Duplicate packet", e, s)));
                        } else if s > e {
                            self.ok = self.ok + 1;
                            self.dropped = self.dropped + s.wrapping_sub(e);
                            let ev = LogEvent::Sequence(SequenceError::Skipped);
                            self.stats.record(&ev);
                            steps.push(LoggerStep::Event(ev, sequence_line("Skipped/dropped packet(s)", e, s)));
                            self.expected_seq = Some(s.wrapping_add(1));
                            steps.push(error_step(sequence_line("Skipped/dropped packet(s)", e, s)));
                        } else {
                            let ev = LogEvent::Sequence(SequenceError::OutOfOrder);
                            self.stats.record(&ev);
                            steps.push(LoggerStep::Event(ev, sequence_line("Out-of-order packet", e, s)));
                            steps.push(error_step(sequence_line("Out of order packet", e, s)));
                        }
                    },
                }
            },
            Err(err) => {
                let ev = LogEvent::from(&err);
                self.stats.record(&ev);
                steps.push(LoggerStep::Event(ev, describe_decode_error(&err)));
                match self.expected_seq {
                    Some(x) => {
                        self.expected_seq = Some(x.wrapping_add(1));
                    },
                    None => {},
                }
                self.dropped = self.dropped + 1;
                steps.push(error_step(describe_decode_error(&err)));
            },
        }
        steps.push(LoggerStep::Update(LoggerUpdate::Stats { ok: self.ok as u32, dropped: self.dropped as u32 }));
        assert(steps_view(steps@) =~= simulated_step(*old(self), result_view(result)).1);
        steps
    }

    /// Accounts for one decoding result of a live session; returns the event
    /// lines to write, in order.
    pub fn observe_live(&mut self, result: Result<Packet, DecodeError>) -> (steps: Vec<LoggerStep>)
        requires
            step_fits(*old(self), result_view(result)),
        ensures
            (*final(self), steps_view(steps@)) == live_step(*old(self), result_view(result)),
    {
        let mut steps: Vec<LoggerStep> = Vec::new();
        match result {
            Ok(packet) => {
                let s = packet.sequence;
                match self.expected_seq {
                    None => {
                        self.ok = self.ok + 1;
                        self.expected_seq = Some(s.wrapping_add(1));
                    },
                    Some(e) => {
                        if s == e {
                            self.ok = self.ok + 1;
                            self.expected_seq = Some(e.wrapping_add(1));
                        } else if s == e.wrapping_sub(1) {
                            let ev = LogEvent::Sequence(SequenceError::Duplicate);
                            self.stats.record(&ev);
                            steps.push(LoggerStep::Event(ev, sequence_line("duplicate packet", e, s)));
                        } else if s > e {
                            self.ok = self.ok + 1;
                            self.dropped = self.dropped + s.wrapping_sub(e);
                            let ev = LogEvent::Sequence(SequenceError::Skipped);
                            self.stats.record(&ev);
                            steps.push(LoggerStep::Event(ev, sequence_line("Skipped/dropped packet(s)", e, s)));
                        } else {
                            let ev = LogEvent::Sequence(SequenceError::OutOfOrder);
                            self.stats.record(&ev);
                            steps.push(LoggerStep::Event(ev, sequence_line("Out of order packet", e, s)));
                        }
                    },
                }
            },
            Err(err) => {
                let ev = LogEvent::from(&err);
                self.stats.record(&ev);
                steps.push(LoggerStep::Event(ev, describe_decode_error(&err)));
                match self.expected_seq {
                    Some(x) => {
                        self.expected_seq = Some(x.wrapping_add(1));
                    },
                    None => {},
                }
                self.dropped = self.dropped + 1;
            },
        }
        assert(steps_view(steps@) =~= live_step(*old(self), result_view(result)).1);
        steps
    }

    /// The end-of-session summary under the given title.
    pub fn summary(&self, title: &str) -> (s: String)
        requires
            self.ok + self.dropped <= u16::MAX,
        ensures
            s@ == summary_text(title@, *self),
    {
        let mut s = String::from_str("\n");
        push_str(&mut s, title);
        push_str(&mut s, " RESULTS:\nTotal frames: ");
        push_decimal(&mut s, (self.ok + self.dropped) as u64);
        push_str(&mut s, "\nSuccessful frames: ");
        push_decimal(&mut s, self.ok as u64);
        push_str(&mut s, "\nFailed frames: ");
        push_decimal(&mut s, self.dropped as u64);
        push_str(&mut s, "\nBreakdown: ");
        let b = self.stats.to_string();
        push_str(&mut s, b.as_str());
        push_str(&mut s, "\n");
        s
    }
}

impl ErrorStats {
    /// All counters at zero.
    pub open spec fn new_spec() -> ErrorStats {
        ErrorStats { packet_too_short: 0, invalid_sync: 0, length_mismatch: 0, crc_mismatch: 0, skipped: 0, duplicate: 0, out_of_order: 0 }
    }
}

/// Whether a list of logger steps writes no event line.
pub open spec fn no_event(steps: Seq<StepView>) -> bool {
    forall|i: int| 0 <= i < steps.len() ==> !(#[trigger] steps[i] is Event)
}

/// Packets whose sequence numbers follow one another, the first being
/// `start` (wrapping after 65535).
pub open spec fn successive(ps: Seq<PacketView>, start: u16) -> bool {
    &&& ps.len() > 0 ==> ps[0].sequence == start
    &&& forall|i: int| 0 <= i < ps.len() - 1 ==> #[trigger] ps[i + 1].sequence == ps[i].sequence.wrapping_add(1)
}

/// The tracker and steps after a run of packets in a simulated session.
pub open spec fn simulated_packets(t: LogTracker, ps: Seq<PacketView>) -> (LogTracker, Seq<StepView>)
    decreases ps.len(),
{
    if ps.len() == 0 {
        (t, seq![])
    } else {
        let r1 = simulated_step(t, Ok(ps[0]));
        let r2 = simulated_packets(r1.0, ps.drop_first());
        (r2.0, r1.1 + r2.1)
    }
}

/// The tracker and event lines after a run of packets in a live session.
pub open spec fn live_packets(t: LogTracker, ps: Seq<PacketView>) -> (LogTracker, Seq<StepView>)
    decreases ps.len(),
{
    if ps.len() == 0 {
        (t, seq![])
    } else {
        let r1 = live_step(t, Ok(ps[0]));
        let r2 = live_packets(r1.0, ps.drop_first());
        (r2.0, r1.1 + r2.1)
    }
}

/// In a simulated session, the packet expected next is accepted: one more
/// frame counts as received, the lost count and the event counters do not
/// move, the expected number moves on by one, and the packet and the new
/// counters are handed out with no event line.
pub proof fn lemma_simulated_in_order(t: LogTracker, p: PacketView)
    requires
        t.expected_seq == Some(p.sequence),
        t.ok < u16::MAX,
    ensures
        simulated_step(t, Ok(p)).0.ok == t.ok + 1,
        simulated_step(t, Ok(p)).0.dropped == t.dropped,
        simulated_step(t, Ok(p)).0.expected_seq == Some(p.sequence.wrapping_add(1)),
        simulated_step(t, Ok(p)).0.stats == t.stats,
        simulated_step(t, Ok(p)).1 == seq![
            StepView::Update(UpdateView::FrameReceived { seq: p.sequence, timestamp: p.timestamp, payload: p.payload }),
            StepView::Update(UpdateView::Stats { ok: (t.ok + 1) as u32, dropped: t.dropped as u32 }),
        ],
{
    let frame = StepView::Update(UpdateView::FrameReceived { seq: p.sequence, timestamp: p.timestamp, payload: p.payload });
    assert(seq![frame].push(StepView::Update(UpdateView::Stats { ok: (t.ok + 1) as u32, dropped: t.dropped as u32 })) =~= seq![
        frame,
        StepView::Update(UpdateView::Stats { ok: (t.ok + 1) as u32, dropped: t.dropped as u32 }),
    ]);
}

/// In a live session, the packet expected next is accepted: one more frame
/// counts as received, the lost count and the event counters do not move,
/// the expected number moves on by one, and no event line is written.
pub proof fn lemma_live_in_order(t: LogTracker, p: PacketView)
    requires
        t.expected_seq == Some(p.sequence),
        t.ok < u16::MAX,
    ensures
        live_step(t, Ok(p)).0.ok == t.ok + 1,
        live_step(t, Ok(p)).0.dropped == t.dropped,
        live_step(t, Ok(p)).0.expected_seq == Some(p.sequence.wrapping_add(1)),
        live_step(t, Ok(p)).0.stats == t.stats,
        live_step(t, Ok(p)).1.len() == 0,
{
}

/// A duplicate (the number just before the one expected) is logged as a
/// duplicate event and counted as one, in a simulated or a live session; it
/// changes neither the received nor the lost count nor the number expected.
pub proof fn lemma_duplicate_logged_only(t: LogTracker, p: PacketView, e: u16)
    requires
        t.expected_seq == Some(e),
        p.sequence == e.wrapping_sub(1),
        t.stats.duplicate < usize::MAX,
    ensures
        simulated_step(t, Ok(p)).0.ok == t.ok,
        simulated_step(t, Ok(p)).0.dropped == t.dropped,
        simulated_step(t, Ok(p)).0.expected_seq == Some(e),
        simulated_step(t, Ok(p)).0.stats.duplicate == t.stats.duplicate + 1,
        simulated_step(t, Ok(p)).1[1] == StepView::Event(LogEvent::Sequence(SequenceError::Duplicate), sequence_text("Duplicate packet"@, e, p.sequence)),
        live_step(t, Ok(p)).0.ok == t.ok,
        live_step(t, Ok(p)).0.dropped == t.dropped,
        live_step(t, Ok(p)).0.expected_seq == Some(e),
        live_step(t, Ok(p)).0.stats.duplicate == t.stats.duplicate + 1,
{
    assert(e.wrapping_sub(1) != e);
}

/// A run of consecutive sequence numbers starting with the one expected (or
/// at the start of a session) writes no event line, in a simulated or a
/// live session: every packet counts as received, none as lost, the event
/// counters do not move, and the number after the last one is expected.
pub proof fn lemma_consecutive_packets(t: LogTracker, ps: Seq<PacketView>, start: u16)
    requires
        successive(ps, start),
        t.expected_seq is None || t.expected_seq == Some(start),
        t.ok + ps.len() <= u16::MAX,
    ensures
        no_event(simulated_packets(t, ps).1),
        simulated_packets(t, ps).0.ok == t.ok + ps.len(),
        simulated_packets(t, ps).0.dropped == t.dropped,
        simulated_packets(t, ps).0.stats == t.stats,
        ps.len() > 0 ==> simulated_packets(t, ps).0.expected_seq == Some(ps.last().sequence.wrapping_add(1)),
        live_packets(t, ps).1.len() == 0,
        live_packets(t, ps).0.ok == t.ok + ps.len(),
        live_packets(t, ps).0.dropped == t.dropped,
        live_packets(t, ps).0.stats == t.stats,
        ps.len() > 0 ==> live_packets(t, ps).0.expected_seq == Some(ps.last().sequence.wrapping_add(1)),
    decreases ps.len(),
{
    if ps.len() > 0 {
        let p = ps[0];
        let rest = ps.drop_first();
        let r1 = simulated_step(t, Ok(p));
        let l1 = live_step(t, Ok(p));
        assert(r1.0 == l1.0);
        assert(successive(rest, p.sequence.wrapping_add(1))) by {
            if rest.len() > 0 {
                assert(ps[1].sequence == ps[0].sequence.wrapping_add(1));
            }
            assert forall|i: int| 0 <= i < rest.len() - 1 implies #[trigger] rest[i + 1].sequence == rest[i].sequence.wrapping_add(1) by {
                let j = i + 1;
                assert(ps[j + 1].sequence == ps[j].sequence.wrapping_add(1));
                assert(rest[i] == ps[j] && rest[i + 1] == ps[j + 1]);
            }
        }
        lemma_consecutive_packets(r1.0, rest, p.sequence.wrapping_add(1));
        let r2 = simulated_packets(r1.0, rest);
        let frame = StepView::Update(UpdateView::FrameReceived { seq: p.sequence, timestamp: p.timestamp, payload: p.payload });
        assert(r1.1 =~= seq![frame].push(StepView::Update(UpdateView::Stats { ok: r1.0.ok as u32, dropped: r1.0.dropped as u32 })));
        assert forall|i: int| 0 <= i < (r1.1 + r2.1).len() implies !(#[trigger] (r1.1 + r2.1)[i] is Event) by {
            if i >= r1.1.len() {
                assert((r1.1 + r2.1)[i] == r2.1[i - r1.1.len()]);
            }
        }
        assert(live_packets(t, ps).1 =~= l1.1 + live_packets(l1.0, rest).1);
        if rest.len() > 0 {
            assert(rest.last() == ps.last());
        }
    }
}

} // verus!
