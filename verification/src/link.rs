//! The live serial link: connection-state reports and the decisions of a live
//! session, which the caller drives with what happened on the port.

use crate::packet::MIN_FRAME_LEN;
use crate::stream::{
    lemma_extract_shape, no_link_state, MAX_PAYLOAD_LEN, actions_view, extract, ActionView, BackendMessage, FrameExtractor, MessageView,
    StreamAction, StreamStats,
};
use crate::text::{hex2, push_hex2, push_str};
use std::collections::VecDeque;
use vstd::prelude::*;
use vstd::string::*;

verus! {

broadcast use vstd::string::group_string_axioms;

/// Where to find the flight computer's serial port.
#[derive(Debug, Clone)]
pub struct LiveConfig {
    pub port_name: String,
    pub baud_rate: u32,
}

/// State of the serial link, as reported to the dashboard.
#[derive(Clone, Copy, Debug, PartialEq, Eq, Structural)]
pub enum LiveLinkState {
    Connecting,
    Connected,
    Reconnecting,
    Disconnected,
}

/// The name the dashboard knows a link state by.
pub open spec fn link_state_name(s: LiveLinkState) -> Seq<char> {
    match s {
        LiveLinkState::Connecting => "CONNECTING"@,
        LiveLinkState::Connected => "CONNECTED"@,
        LiveLinkState::Reconnecting => "RECONNECTING"@,
        LiveLinkState::Disconnected => "DISCONNECTED"@,
    }
}

impl LiveLinkState {
    /// The name the dashboard knows this state by.
    pub fn as_str(self) -> (r: &'static str)
        ensures
            r@ == link_state_name(self),
    {
        match self {
            LiveLinkState::Connecting => "CONNECTING",
            LiveLinkState::Connected => "CONNECTED",
            LiveLinkState::Reconnecting => "RECONNECTING",
            LiveLinkState::Disconnected => "DISCONNECTED",
        }
    }
}

/// The link-state message for a state and its detail.
pub open spec fn link_state_message(state: LiveLinkState, detail: Seq<char>) -> MessageView {
    MessageView::LinkState { state: link_state_name(state), detail }
}

/// Whether a link state differs from the last one reported.
pub open spec fn link_state_changed(last: Option<(LiveLinkState, String)>, state: LiveLinkState, detail: Seq<char>) -> bool {
    match last {
        Some((s, d)) => s != state || d@ != detail,
        None => true,
    }
}

/// Reports a link state unless it repeats the last one reported (same state
/// and same detail); returns the message to broadcast and remembers it.
pub fn report_link_state(last: &mut Option<(LiveLinkState, String)>, state: LiveLinkState, detail: String) -> (m: Option<BackendMessage>)
    ensures
        link_state_changed(*old(last), state, detail@) ==> {
            &&& m matches Some(msg) && msg@ == link_state_message(state, detail@)
            &&& *final(last) matches Some((s, d)) && s == state && d@ == detail@
        },
        !link_state_changed(*old(last), state, detail@) ==> m is None && *final(last) == *old(last),
{
    let should_emit = match last {
        Some((previous_state, previous_detail)) => *previous_state != state || *previous_detail != detail,
        None => true,
    };
    if should_emit {
        let msg = BackendMessage::LinkState { state: String::from_str(state.as_str()), detail: detail.clone() };
        *last = Some((state, detail));
        Some(msg)
    } else {
        None
    }
}

/// A link state that was just reported is not reported again while neither
/// the state nor its detail changes.
pub proof fn lemma_report_not_repeated(last: Option<(LiveLinkState, String)>, state: LiveLinkState, detail: String)
    requires
        last matches Some((s, d)) && s == state && d@ == detail@,
    ensures
        !link_state_changed(last, state, detail@),
        report_actions(last, state, detail@) == Seq::<ActionView>::empty(),
{
}

/// `[CommandTx] [AA, 55, ...]`: a sent command frame as the session's error
/// log records it, each byte as two upper-case hexadecimal digits.
pub open spec fn command_note_text(frame: Seq<u8>) -> Seq<char> {
    "[CommandTx] ["@ + hex_list(frame) + "]"@
}

/// Bytes as two-digit hexadecimal numbers separated by `, `.
pub open spec fn hex_list(b: Seq<u8>) -> Seq<char>
    decreases b.len(),
{
    if b.len() == 0 {
        seq![]
    } else if b.len() == 1 {
        hex2(b[0])
    } else {
        hex_list(b.drop_last()) + ", "@ + hex2(b.last())
    }
}

/// The error-log line for a command frame written to the port.
pub fn command_note(frame: &[u8]) -> (s: String)
    ensures
        s@ == command_note_text(frame@),
{
    let mut s = String::from_str("[CommandTx] [");
    let ghost start = s@;
    let n = frame.len();
    let mut i: usize = 0;
    while i < n
        invariant
            n == frame@.len(),
            i <= n,
            s@ == start + hex_list(frame@.take(i as int)),
        decreases n - i,
    {
        if i > 0 {
            push_str(&mut s, ", ");
        }
        push_hex2(&mut s, frame[i]);
        assert(frame@.take(i + 1).drop_last() =~= frame@.take(i as int));
        assert(s@ =~= start + hex_list(frame@.take(i + 1)));
        i = i + 1;
    }
    assert(frame@.take(n as int) =~= frame@);
    push_str(&mut s, "]");
    s
}

/// `prefix port` or `prefix port: cause`.
pub open spec fn port_text(prefix: Seq<char>, port: Seq<char>) -> Seq<char> {
    prefix + port
}

fn port_detail(prefix: &str, port: &str) -> (s: String)
    ensures
        s@ == port_text(prefix@, port@),
{
    let mut s = String::from_str(prefix);
    push_str(&mut s, port);
    s
}

fn port_cause_detail(prefix: &str, port: &str, cause: &str) -> (s: String)
    ensures
        s@ == port_text(prefix@, port@) + ": "@ + cause@,
{
    let mut s = port_detail(prefix, port);
    push_str(&mut s, ": ");
    push_str(&mut s, cause);
    s
}

/// The decisions of a live session: counters and frame buffer of the receive
/// path, commands waiting to be written and the one being written, the last
/// link state reported, whether the port has ever been opened and whether it
/// is open now. Three ghost records keep the session's history: every link
/// state reported, every command queued, and every command written.
pub struct LiveLink {
    pub stats: StreamStats,
    pub extractor: FrameExtractor,
    pub pending_commands: VecDeque<Vec<u8>>,
    pub in_flight: Option<Vec<u8>>,
    pub last_reported: Option<(LiveLinkState, String)>,
    pub has_connected_once: bool,
    pub port_open: bool,
    pub reports: Ghost<Seq<(LiveLinkState, Seq<char>)>>,
    pub queued: Ghost<Seq<Vec<u8>>>,
    pub written: Ghost<Seq<Vec<u8>>>,
}

/// What a read from the port gave.
pub enum PortRead {
    /// These bytes (none, when the read returned zero bytes).
    Data(Vec<u8>),
    /// The read timed out: nothing arrived.
    TimedOut,
    /// The read failed for the given reason.
    Failed(String),
}

/// The state reported while the port cannot be opened: reconnecting once the
/// link has been up, connecting before that.
pub open spec fn waiting_state(has_connected_once: bool) -> LiveLinkState {
    if has_connected_once {
        LiveLinkState::Reconnecting
    } else {
        LiveLinkState::Connecting
    }
}

/// The link-state actions of a report: one broadcast if the state changed,
/// none otherwise.
pub open spec fn report_actions(last: Option<(LiveLinkState, String)>, state: LiveLinkState, detail: Seq<char>) -> Seq<ActionView> {
    if link_state_changed(last, state, detail) {
        seq![ActionView::Send(link_state_message(state, detail))]
    } else {
        seq![]
    }
}

/// The link states a report adds to the session's history: the new one if it
/// changed, none otherwise.
pub open spec fn report_seq(last: Option<(LiveLinkState, String)>, state: LiveLinkState, detail: Seq<char>) -> Seq<(LiveLinkState, Seq<char>)> {
    if link_state_changed(last, state, detail) {
        seq![(state, detail)]
    } else {
        seq![]
    }
}

/// The command being written, as a list of zero or one commands.
pub open spec fn in_flight_list(f: Option<Vec<u8>>) -> Seq<Vec<u8>> {
    match f {
        Some(v) => seq![v],
        None => seq![],
    }
}

/// Whether the session has ever reported itself connected.
pub open spec fn ever_connected(reports: Seq<(LiveLinkState, Seq<char>)>) -> bool {
    exists|i: int| 0 <= i < reports.len() && (#[trigger] reports[i]).0 == LiveLinkState::Connected
}

impl LiveLink {
    /// What holds of a session at every step, from [`LiveLink::start`] on:
    /// - the first link state reported is connecting;
    /// - the last report remembered is the last one made;
    /// - no link state was reported twice in a row;
    /// - the port counts as having been opened exactly when the session has
    ///   reported itself connected;
    /// - every report of reconnecting comes after a report of connected;
    /// - the port is open exactly when the last link state reported is
    ///   connected;
    /// - the commands written, the one being written and those waiting are,
    ///   in this order, exactly the commands queued: none is lost, repeated or
    ///   reordered;
    /// - the frame buffer keeps its own history (see [`FrameExtractor::wf`]).
    #[verifier::opaque]
    pub open spec fn wf(self) -> bool {
        let r = self.reports@;
        &&& r.len() > 0 && r[0].0 == LiveLinkState::Connecting
        &&& last_view(self.last_reported) == (if r.len() == 0 { None } else { Some(r.last()) })
        &&& forall|i: int| 0 <= i < r.len() - 1 ==> #[trigger] r[i] != r[i + 1]
        &&& self.has_connected_once == ever_connected(r)
        &&& forall|i: int| 0 <= i < r.len() && (#[trigger] r[i]).0 == LiveLinkState::Reconnecting
            ==> exists|j: int| 0 <= j < i && (#[trigger] r[j]).0 == LiveLinkState::Connected
        &&& self.port_open == (r.len() > 0 && r.last().0 == LiveLinkState::Connected)
        &&& self.written@ + in_flight_list(self.in_flight) + self.pending_commands@ == self.queued@
        &&& self.extractor.wf()
    }

    /// Over any run of a live session, whatever happened on the port: the first
    /// link state reported is connecting; no link state (state and detail) is
    /// reported twice in a row; reconnecting is reported only after connected
    /// was; the port is open exactly while the last link state reported is
    /// connected, so connected is reported only with the port open; and the
    /// commands written so far are, in order, the oldest ones queued, followed
    /// by the one being written and then those waiting, so none is skipped,
    /// repeated or reordered, a command whose write failed included.
    pub proof fn lemma_session_history(self)
        requires
            self.wf(),
        ensures
            self.reports@.len() > 0,
            self.reports@[0].0 == LiveLinkState::Connecting,
            forall|i: int| 0 <= i < self.reports@.len() - 1 ==> #[trigger] self.reports@[i] != self.reports@[i + 1],
            forall|i: int| 0 <= i < self.reports@.len() && (#[trigger] self.reports@[i]).0 == LiveLinkState::Reconnecting
                ==> exists|j: int| 0 <= j < i && (#[trigger] self.reports@[j]).0 == LiveLinkState::Connected,
            self.port_open == (self.reports@.last().0 == LiveLinkState::Connected),
            last_view(self.last_reported) == Some(self.reports@.last()),
            self.has_connected_once == ever_connected(self.reports@),
            self.written@ == self.queued@.take(self.written@.len() as int),
            self.written@ + in_flight_list(self.in_flight) + self.pending_commands@ == self.queued@,
            self.extractor.wf(),
    {
        reveal(LiveLink::wf);
        let w = self.written@;
        assert((w + in_flight_list(self.in_flight) + self.pending_commands@).take(w.len() as int) =~= w);
    }

    fn report(&mut self, state: LiveLinkState, detail: String) -> (acts: Vec<StreamAction>)
        ensures
            actions_view(acts@) == report_actions(old(self).last_reported, state, detail@),
            final(self).stats == old(self).stats,
            final(self).extractor == old(self).extractor,
            final(self).pending_commands@ == old(self).pending_commands@,
            final(self).in_flight == old(self).in_flight,
            final(self).has_connected_once == old(self).has_connected_once,
            final(self).port_open == old(self).port_open,
            final(self).queued == old(self).queued,
            final(self).written == old(self).written,
            final(self).reports@ == old(self).reports@ + report_seq(old(self).last_reported, state, detail@),
            link_state_changed(old(self).last_reported, state, detail@) ==> (final(self).last_reported matches Some((s, d)) && s == state && d@ == detail@),
            !link_state_changed(old(self).last_reported, state, detail@) ==> final(self).last_reported == old(self).last_reported,
    {
        let ghost old_last = self.last_reported;
        let ghost d = detail@;
        let mut acts: Vec<StreamAction> = Vec::new();
        match report_link_state(&mut self.last_reported, state, detail) {
            Some(m) => {
                acts.push(StreamAction::Send(m));
            },
            None => {},
        }
        proof {
            self.reports = Ghost(self.reports@ + report_seq(old_last, state, d));
        }
        assert(actions_view(acts@) =~= report_actions(old(self).last_reported, state, detail@));
        acts
    }

    /// A session that has not yet opened its port; reports that it is
    /// opening the port.
    pub fn start(port_name: &str) -> (r: (LiveLink, Vec<StreamAction>))
        ensures
            r.0.wf(),
            r.0.stats.ok == 0 && r.0.stats.dropped == 0 && r.0.stats.expected_seq is None,
            r.0.extractor.buffer@.len() == 0,
            r.0.pending_commands@.len() == 0,
            r.0.in_flight is None,
            !r.0.has_connected_once,
            !r.0.port_open,
            r.0.queued@.len() == 0,
            r.0.reports@ == seq![(LiveLinkState::Connecting, port_text("opening "@, port_name@))],
            r.0.last_reported matches Some((s, d)) && s == LiveLinkState::Connecting && d@ == port_text("opening "@, port_name@),
            actions_view(r.1@) == seq![ActionView::Send(link_state_message(LiveLinkState::Connecting, port_text("opening "@, port_name@)))],
    {
        let mut link = LiveLink {
            stats: StreamStats::new(),
            extractor: FrameExtractor::new(),
            pending_commands: VecDeque::new(),
            in_flight: None,
            last_reported: None,
            has_connected_once: false,
            port_open: false,
            reports: Ghost(Seq::empty()),
            queued: Ghost(Seq::empty()),
            written: Ghost(Seq::empty()),
        };
        let acts = link.report(LiveLinkState::Connecting, port_detail("opening ", port_name));
        proof {
            reveal(LiveLink::wf);
            let r = link.reports@;
            assert(r =~= seq![(LiveLinkState::Connecting, port_text("opening "@, port_name@))]);
            assert(!ever_connected(r));
            assert(link.written@ + in_flight_list(link.in_flight) + link.pending_commands@ =~= link.queued@);
        }
        (link, acts)
    }

    /// The port was opened: the frame buffer and the expected sequence number
    /// start afresh, and the link is reported connected.
    pub fn on_port_opened(&mut self, port_name: &str) -> (acts: Vec<StreamAction>)
        ensures
            old(self).wf() ==> final(self).wf(),
            final(self).extractor.buffer@.len() == 0,
            final(self).stats.ok == old(self).stats.ok,
            final(self).stats.dropped == old(self).stats.dropped,
            final(self).stats.expected_seq is None,
            final(self).has_connected_once,
            final(self).port_open,
            final(self).pending_commands@ == old(self).pending_commands@,
            final(self).in_flight == old(self).in_flight,
            final(self).queued == old(self).queued,
            final(self).written == old(self).written,
            final(self).reports@ == old(self).reports@ + report_seq(old(self).last_reported, LiveLinkState::Connected, port_text("connected to "@, port_name@)),
            actions_view(acts@) == report_actions(old(self).last_reported, LiveLinkState::Connected, port_text("connected to "@, port_name@)),
            link_state_changed(old(self).last_reported, LiveLinkState::Connected, port_text("connected to "@, port_name@)) ==> (final(self).last_reported matches Some((s, x)) && s == LiveLinkState::Connected && x@ == port_text("connected to "@, port_name@)),
            !link_state_changed(old(self).last_reported, LiveLinkState::Connected, port_text("connected to "@, port_name@)) ==> final(self).last_reported == old(self).last_reported,
    {
        let ghost before = *self;
        self.extractor = FrameExtractor::new();
        self.stats.reset_sequence_tracking();
        self.has_connected_once = true;
        self.port_open = true;
        let acts = self.report(LiveLinkState::Connected, port_detail("connected to ", port_name));
        proof {
            lemma_report_keeps_wf(before, *self, LiveLinkState::Connected, port_text("connected to "@, port_name@));
        }
        acts
    }

    /// The port, which is closed, could not be opened: the link is reported
    /// reconnecting if it was ever connected, connecting otherwise.
    pub fn on_open_failed(&mut self, port_name: &str, cause: &str) -> (acts: Vec<StreamAction>)
        requires
            !old(self).port_open,
        ensures
            old(self).wf() ==> final(self).wf(),
            final(self).stats == old(self).stats,
            final(self).extractor == old(self).extractor,
            final(self).has_connected_once == old(self).has_connected_once,
            final(self).port_open == old(self).port_open,
            final(self).pending_commands@ == old(self).pending_commands@,
            final(self).in_flight == old(self).in_flight,
            final(self).queued == old(self).queued,
            final(self).written == old(self).written,
            final(self).reports@ == old(self).reports@ + report_seq(old(self).last_reported, waiting_state(old(self).has_connected_once), port_text("waiting for "@, port_name@) + ": "@ + cause@),
            actions_view(acts@) == report_actions(
                old(self).last_reported,
                waiting_state(old(self).has_connected_once),
                port_text("waiting for "@, port_name@) + ": "@ + cause@,
            ),
            link_state_changed(old(self).last_reported, waiting_state(old(self).has_connected_once), port_text("waiting for "@, port_name@) + ": "@ + cause@) ==> (final(self).last_reported matches Some((s, x)) && s == waiting_state(old(self).has_connected_once) && x@ == port_text("waiting for "@, port_name@) + ": "@ + cause@),
            !link_state_changed(old(self).last_reported, waiting_state(old(self).has_connected_once), port_text("waiting for "@, port_name@) + ": "@ + cause@) ==> final(self).last_reported == old(self).last_reported,
    {
        let ghost before = *self;
        let state = if self.has_connected_once { LiveLinkState::Reconnecting } else { LiveLinkState::Connecting };
        assert(state == waiting_state(self.has_connected_once));
        let acts = self.report(state, port_cause_detail("waiting for ", port_name, cause));
        proof {
            lemma_report_keeps_wf(before, *self, state, port_text("waiting for "@, port_name@) + ": "@ + cause@);
        }
        acts
    }

    /// Bytes were read from the port: they go through the receive path.
    pub fn on_bytes(&mut self, bytes: &[u8]) -> (acts: Vec<StreamAction>)
        ensures
            old(self).wf() ==> final(self).wf(),
            ({
                let r = extract(old(self).extractor.buffer@ + bytes@, old(self).stats);
                &&& final(self).extractor.buffer@ == r.0
                &&& final(self).stats == r.1
                &&& actions_view(acts@) == r.2
            }),
            final(self).last_reported == old(self).last_reported,
            final(self).has_connected_once == old(self).has_connected_once,
            final(self).port_open == old(self).port_open,
            final(self).pending_commands@ == old(self).pending_commands@,
            final(self).in_flight == old(self).in_flight,
            final(self).queued == old(self).queued,
            final(self).written == old(self).written,
            final(self).reports == old(self).reports,
            no_link_state(actions_view(acts@)),
            final(self).extractor.buffer@.len() <= MIN_FRAME_LEN + MAX_PAYLOAD_LEN - 1,
    {
        proof {
            lemma_extract_shape(self.extractor.buffer@ + bytes@, self.stats);
            if old(self).wf() {
                old(self).lemma_session_history();
            }
        }
        let acts = self.extractor.push_bytes(bytes, &mut self.stats);
        proof {
            if old(self).wf() {
                assert(self.written@ + in_flight_list(self.in_flight) + self.pending_commands@ =~= old(self).written@ + in_flight_list(old(self).in_flight) + old(self).pending_commands@ + Seq::<Vec<u8>>::empty());
                assert(self.queued@ =~= old(self).queued@ + Seq::<Vec<u8>>::empty());
                lemma_queue_keeps_wf(*old(self), *self, Seq::empty());
            }
        }
        acts
    }

    /// Reading or writing failed: the frame buffer is dropped, the port counts
    /// as closed, and the link is reported reconnecting. Only an open port can
    /// be lost.
    pub fn on_connection_lost(&mut self, port_name: &str, cause: &str) -> (acts: Vec<StreamAction>)
        requires
            old(self).port_open,
        ensures
            old(self).wf() ==> final(self).wf(),
            final(self).extractor.buffer@.len() == 0,
            !final(self).port_open,
            final(self).stats == old(self).stats,
            final(self).has_connected_once == old(self).has_connected_once,
            final(self).pending_commands@ == old(self).pending_commands@,
            final(self).in_flight == old(self).in_flight,
            final(self).queued == old(self).queued,
            final(self).written == old(self).written,
            final(self).reports@ == old(self).reports@ + report_seq(old(self).last_reported, LiveLinkState::Reconnecting, port_text("lost "@, port_name@) + ": "@ + cause@),
            actions_view(acts@) == report_actions(old(self).last_reported, LiveLinkState::Reconnecting, port_text("lost "@, port_name@) + ": "@ + cause@),
            link_state_changed(old(self).last_reported, LiveLinkState::Reconnecting, port_text("lost "@, port_name@) + ": "@ + cause@) ==> (final(self).last_reported matches Some((s, x)) && s == LiveLinkState::Reconnecting && x@ == port_text("lost "@, port_name@) + ": "@ + cause@),
            !link_state_changed(old(self).last_reported, LiveLinkState::Reconnecting, port_text("lost "@, port_name@) + ": "@ + cause@) ==> final(self).last_reported == old(self).last_reported,
    {
        let ghost before = *self;
        self.extractor = FrameExtractor::new();
        self.port_open = false;
        let acts = self.report(LiveLinkState::Reconnecting, port_cause_detail("lost ", port_name, cause));
        proof {
            lemma_report_keeps_wf(before, *self, LiveLinkState::Reconnecting, port_text("lost "@, port_name@) + ": "@ + cause@);
        }
        acts
    }

    /// The outcome of a read from the open port: bytes go through the receive
    /// path, an empty read or a timeout changes nothing, and a failure loses
    /// the connection.
    pub fn on_read(&mut self, port_name: &str, outcome: PortRead) -> (acts: Vec<StreamAction>)
        requires
            old(self).port_open,
        ensures
            old(self).wf() ==> final(self).wf(),
            match outcome {
                PortRead::Data(b) => if b@.len() > 0 {
                    let r = extract(old(self).extractor.buffer@ + b@, old(self).stats);
                    &&& final(self).extractor.buffer@ == r.0
                    &&& final(self).stats == r.1
                    &&& actions_view(acts@) == r.2
                    &&& final(self).port_open
                    &&& final(self).last_reported == old(self).last_reported
                    &&& final(self).reports == old(self).reports
                } else {
                    *final(self) == *old(self) && acts@.len() == 0
                },
                PortRead::TimedOut => *final(self) == *old(self) && acts@.len() == 0,
                PortRead::Failed(cause) => {
                    &&& final(self).extractor.buffer@.len() == 0
                    &&& !final(self).port_open
                    &&& final(self).stats == old(self).stats
                    &&& final(self).reports@ == old(self).reports@ + report_seq(old(self).last_reported, LiveLinkState::Reconnecting, port_text("lost "@, port_name@) + ": "@ + cause@)
                    &&& actions_view(acts@) == report_actions(old(self).last_reported, LiveLinkState::Reconnecting, port_text("lost "@, port_name@) + ": "@ + cause@)
                },
            },
            final(self).has_connected_once == old(self).has_connected_once,
            final(self).pending_commands@ == old(self).pending_commands@,
            final(self).in_flight == old(self).in_flight,
            final(self).queued == old(self).queued,
            final(self).written == old(self).written,
    {
        match outcome {
            PortRead::Data(bytes) => {
                if bytes.len() > 0 {
                    self.on_bytes(bytes.as_slice())
                } else {
                    Vec::new()
                }
            },
            PortRead::TimedOut => Vec::new(),
            PortRead::Failed(cause) => self.on_connection_lost(port_name, cause.as_str()),
        }
    }

    /// The session was asked to stop: the port is closed and the link is
    /// reported disconnected.
    pub fn on_stopped(&mut self, port_name: &str) -> (acts: Vec<StreamAction>)
        ensures
            old(self).wf() ==> final(self).wf(),
            final(self).stats == old(self).stats,
            final(self).extractor == old(self).extractor,
            actions_view(acts@) == report_actions(old(self).last_reported, LiveLinkState::Disconnected, port_text("stopped "@, port_name@)),
            final(self).pending_commands@ == old(self).pending_commands@,
            final(self).in_flight == old(self).in_flight,
            final(self).has_connected_once == old(self).has_connected_once,
            !final(self).port_open,
            final(self).queued == old(self).queued,
            final(self).written == old(self).written,
            final(self).reports@ == old(self).reports@ + report_seq(old(self).last_reported, LiveLinkState::Disconnected, port_text("stopped "@, port_name@)),
            link_state_changed(old(self).last_reported, LiveLinkState::Disconnected, port_text("stopped "@, port_name@)) ==> (final(self).last_reported matches Some((s, x)) && s == LiveLinkState::Disconnected && x@ == port_text("stopped "@, port_name@)),
            !link_state_changed(old(self).last_reported, LiveLinkState::Disconnected, port_text("stopped "@, port_name@)) ==> final(self).last_reported == old(self).last_reported,
    {
        let ghost before = *self;
        self.port_open = false;
        let acts = self.report(LiveLinkState::Disconnected, port_detail("stopped ", port_name));
        proof {
            lemma_report_keeps_wf(before, *self, LiveLinkState::Disconnected, port_text("stopped "@, port_name@));
        }
        acts
    }

    /// Queues a command frame behind those already waiting.
    pub fn queue_command(&mut self, frame: Vec<u8>)
        ensures
            old(self).wf() ==> final(self).wf(),
            final(self).pending_commands@ == old(self).pending_commands@.push(frame),
            final(self).queued@ == old(self).queued@.push(frame),
            final(self).in_flight == old(self).in_flight,
            final(self).written == old(self).written,
            final(self).stats == old(self).stats,
            final(self).extractor == old(self).extractor,
            final(self).last_reported == old(self).last_reported,
            final(self).has_connected_once == old(self).has_connected_once,
            final(self).port_open == old(self).port_open,
            final(self).reports == old(self).reports,
    {
        let ghost f = frame;
        self.pending_commands.push_back(frame);
        proof {
            self.queued = Ghost(self.queued@.push(f));
            if old(self).wf() {
                assert(self.written@ + in_flight_list(self.in_flight) + self.pending_commands@ =~= old(self).written@ + in_flight_list(old(self).in_flight) + old(self).pending_commands@ + seq![f]);
                assert(self.queued@ =~= old(self).queued@ + seq![f]);
                lemma_queue_keeps_wf(*old(self), *self, seq![f]);
            }
        }
    }

    /// The command to write next: the one already being written, if its write
    /// has not been settled, else the oldest waiting one, which becomes the one
    /// being written.
    pub fn next_command(&mut self) -> (frame: Option<Vec<u8>>)
        ensures
            old(self).wf() ==> final(self).wf(),
            old(self).in_flight matches Some(f) ==> (frame matches Some(c) && c@ == f@) && *final(self) == *old(self),
            old(self).in_flight is None && old(self).pending_commands@.len() == 0 ==> frame is None && *final(self) == *old(self),
            old(self).in_flight is None && old(self).pending_commands@.len() > 0 ==> {
                &&& frame matches Some(c) && c@ == old(self).pending_commands@[0]@
                &&& final(self).in_flight == Some(old(self).pending_commands@[0])
                &&& final(self).pending_commands@ == old(self).pending_commands@.drop_first()
            },
            final(self).queued == old(self).queued,
            final(self).written == old(self).written,
            final(self).stats == old(self).stats,
            final(self).extractor == old(self).extractor,
            final(self).last_reported == old(self).last_reported,
            final(self).has_connected_once == old(self).has_connected_once,
            final(self).port_open == old(self).port_open,
            final(self).reports == old(self).reports,
    {
        match &self.in_flight {
            Some(f) => {
                return Some(copy_frame(f));
            },
            None => {},
        }
        if self.pending_commands.len() == 0 {
            return None;
        }
        let ghost p = self.pending_commands@;
        match self.pending_commands.pop_front() {
            Some(f) => {
                let copy = copy_frame(&f);
                self.in_flight = Some(f);
                proof {
                    if old(self).wf() {
                        assert(seq![p[0]] + p.drop_first() =~= p);
                        assert(self.written@ + in_flight_list(self.in_flight) + self.pending_commands@ =~= old(self).written@ + in_flight_list(old(self).in_flight) + p + Seq::<Vec<u8>>::empty());
                        lemma_queue_keeps_wf(*old(self), *self, Seq::empty());
                    }
                }
                Some(copy)
            },
            None => None,
        }
    }

    /// The command being written went out: it joins the commands written, and
    /// its line for the session's error log is returned.
    pub fn on_command_written(&mut self) -> (note: Option<String>)
        ensures
            old(self).wf() ==> final(self).wf(),
            old(self).in_flight matches Some(f) ==> {
                &&& note matches Some(n) && n@ == command_note_text(f@)
                &&& final(self).written@ == old(self).written@.push(f)
                &&& final(self).in_flight is None
            },
            old(self).in_flight is None ==> note is None && *final(self) == *old(self),
            final(self).pending_commands@ == old(self).pending_commands@,
            final(self).queued == old(self).queued,
            final(self).stats == old(self).stats,
            final(self).extractor == old(self).extractor,
            final(self).last_reported == old(self).last_reported,
            final(self).has_connected_once == old(self).has_connected_once,
            final(self).port_open == old(self).port_open,
            final(self).reports == old(self).reports,
    {
        match self.in_flight.take() {
            Some(f) => {
                let note = command_note(f.as_slice());
                proof {
                    self.written = Ghost(self.written@.push(f));
                    if old(self).wf() {
                        assert(self.written@ + in_flight_list(self.in_flight) + self.pending_commands@ =~= old(self).written@ + in_flight_list(old(self).in_flight) + old(self).pending_commands@ + Seq::<Vec<u8>>::empty());
                        lemma_queue_keeps_wf(*old(self), *self, Seq::empty());
                    }
                }
                Some(note)
            },
            None => None,
        }
    }

    /// Writing the command failed: it goes back to the head of the queue, to
    /// be written first once the port is open again, and the connection is
    /// lost.
    pub fn on_write_failed(&mut self, port_name: &str, cause: &str) -> (acts: Vec<StreamAction>)
        requires
            old(self).port_open,
        ensures
            old(self).wf() ==> final(self).wf(),
            final(self).pending_commands@ == in_flight_list(old(self).in_flight) + old(self).pending_commands@,
            final(self).in_flight is None,
            final(self).queued == old(self).queued,
            final(self).written == old(self).written,
            final(self).extractor.buffer@.len() == 0,
            !final(self).port_open,
            final(self).stats == old(self).stats,
            final(self).has_connected_once == old(self).has_connected_once,
            final(self).reports@ == old(self).reports@ + report_seq(old(self).last_reported, LiveLinkState::Reconnecting, port_text("lost "@, port_name@) + ": "@ + cause@),
            actions_view(acts@) == report_actions(old(self).last_reported, LiveLinkState::Reconnecting, port_text("lost "@, port_name@) + ": "@ + cause@),
    {
        match self.in_flight.take() {
            Some(f) => {
                self.pending_commands.push_front(f);
            },
            None => {},
        }
        proof {
            if old(self).wf() {
                assert(self.written@ + in_flight_list(self.in_flight) + self.pending_commands@ =~= old(self).written@ + in_flight_list(old(self).in_flight) + old(self).pending_commands@ + Seq::<Vec<u8>>::empty());
                assert(self.queued@ =~= old(self).queued@ + Seq::<Vec<u8>>::empty());
                lemma_queue_keeps_wf(*old(self), *self, Seq::empty());
            }
        }
        self.on_connection_lost(port_name, cause)
    }
}

/// A step that touches only the commands keeps a session well formed as long
/// as the commands written, being written and waiting still make up, in
/// order, those queued.
proof fn lemma_queue_keeps_wf(before: LiveLink, after: LiveLink, added: Seq<Vec<u8>>)
    requires
        before.wf(),
        after.reports == before.reports,
        after.last_reported == before.last_reported,
        after.has_connected_once == before.has_connected_once,
        after.port_open == before.port_open,
        after.extractor == before.extractor || after.extractor.wf(),
        after.queued@ == before.queued@ + added,
        after.written@ + in_flight_list(after.in_flight) + after.pending_commands@
            == before.written@ + in_flight_list(before.in_flight) + before.pending_commands@ + added,
    ensures
        after.wf(),
{
    reveal(LiveLink::wf);
}

fn copy_frame(f: &Vec<u8>) -> (c: Vec<u8>)
    ensures
        c@ == f@,
{
    vstd::slice::slice_to_vec(f.as_slice())
}

proof fn lemma_report_keeps_wf(before: LiveLink, after: LiveLink, state: LiveLinkState, detail: Seq<char>)
    requires
        after.reports@ == before.reports@ + report_seq(before.last_reported, state, detail),
        link_state_changed(before.last_reported, state, detail) ==> (after.last_reported matches Some((s, d)) && s == state && d@ == detail),
        !link_state_changed(before.last_reported, state, detail) ==> after.last_reported == before.last_reported,
        after.has_connected_once == (before.has_connected_once || state == LiveLinkState::Connected),
        state == LiveLinkState::Reconnecting ==> (before.has_connected_once || before.port_open),
        after.port_open == (state == LiveLinkState::Connected),
        after.written == before.written,
        after.queued == before.queued,
        after.in_flight == before.in_flight,
        after.pending_commands@ == before.pending_commands@,
        after.extractor == before.extractor || after.extractor.wf(),
    ensures
        before.wf() ==> after.wf(),
{
    reveal(LiveLink::wf);
    if before.wf() {
        let r = before.reports@;
        let r2 = after.reports@;
        if link_state_changed(before.last_reported, state, detail) {
            assert(r2 == r.push((state, detail)));
            assert(last_view(after.last_reported) == Some((state, detail)));
            assert forall|i: int| 0 <= i < r2.len() - 1 implies #[trigger] r2[i] != r2[i + 1] by {
                if i + 1 == r.len() {
                    assert(r2[i] == r.last());
                } else {
                    assert(r2[i] == r[i] && r2[i + 1] == r[i + 1]);
                }
            }
            if state == LiveLinkState::Connected {
                assert(r2[r.len() as int].0 == LiveLinkState::Connected);
            } else {
                if ever_connected(r2) {
                    let i = choose|i: int| 0 <= i < r2.len() && (#[trigger] r2[i]).0 == LiveLinkState::Connected;
                    assert(i < r.len());
                    assert(r[i] == r2[i]);
                }
                if ever_connected(r) {
                    let i = choose|i: int| 0 <= i < r.len() && (#[trigger] r[i]).0 == LiveLinkState::Connected;
                    assert(r2[i] == r[i]);
                }
            }
            assert forall|i: int| 0 <= i < r2.len() && (#[trigger] r2[i]).0 == LiveLinkState::Reconnecting
                implies exists|j: int| 0 <= j < i && (#[trigger] r2[j]).0 == LiveLinkState::Connected by {
                if i < r.len() {
                    assert(r2[i] == r[i]);
                    let j = choose|j: int| 0 <= j < i && (#[trigger] r[j]).0 == LiveLinkState::Connected;
                    assert(r2[j] == r[j]);
                } else {
                    assert(before.has_connected_once);
                    let j = choose|j: int| 0 <= j < r.len() && (#[trigger] r[j]).0 == LiveLinkState::Connected;
                    assert(r2[j] == r[j]);
                }
            }
        } else {
            assert(r2 =~= r);
            assert(last_view(before.last_reported) == Some((state, detail)));
            if state == LiveLinkState::Connected {
                assert(r.len() > 0);
                assert(r[r.len() - 1].0 == LiveLinkState::Connected);
            }
        }
    }
}

/// What the last report was, as a state and the characters of its detail.
pub open spec fn last_view(last: Option<(LiveLinkState, String)>) -> Option<(LiveLinkState, Seq<char>)> {
    match last {
        Some((s, d)) => Some((s, d@)),
        None => None,
    }
}

/// A report changes the link state exactly when it differs from the last one;
/// either way the last report is afterwards the one just made.
pub proof fn lemma_report_step(last: Option<(LiveLinkState, String)>, state: LiveLinkState, detail: Seq<char>)
    ensures
        link_state_changed(last, state, detail) == (last_view(last) != Some((state, detail))),
        report_actions(last, state, detail) == (if last_view(last) != Some((state, detail)) {
            seq![ActionView::Send(link_state_message(state, detail))]
        } else {
            Seq::<ActionView>::empty()
        }),
{
}

/// The link states a run of reports broadcasts, from the last one reported
/// before the run: each requested report that differs from the last one.
pub open spec fn reported(last: Option<(LiveLinkState, Seq<char>)>, requests: Seq<(LiveLinkState, Seq<char>)>) -> Seq<(LiveLinkState, Seq<char>)>
    decreases requests.len(),
{
    if requests.len() == 0 {
        seq![]
    } else if last != Some(requests[0]) {
        seq![requests[0]] + reported(Some(requests[0]), requests.drop_first())
    } else {
        reported(last, requests.drop_first())
    }
}

/// A live session never broadcasts the same link state (state and detail)
/// twice in a row, nor repeats the one reported before the run.
pub proof fn lemma_reports_never_repeat(last: Option<(LiveLinkState, Seq<char>)>, requests: Seq<(LiveLinkState, Seq<char>)>)
    ensures
        reported(last, requests).len() > 0 ==> last != Some(reported(last, requests)[0]),
        forall|i: int| 0 <= i < reported(last, requests).len() - 1
            ==> #[trigger] reported(last, requests)[i] != reported(last, requests)[i + 1],
    decreases requests.len(),
{
    if requests.len() > 0 {
        lemma_reports_never_repeat(Some(requests[0]), requests.drop_first());
        lemma_reports_never_repeat(last, requests.drop_first());
        let out = reported(last, requests);
        if last != Some(requests[0]) {
            let rest = reported(Some(requests[0]), requests.drop_first());
            assert forall|i: int| 0 <= i < out.len() - 1 implies #[trigger] out[i] != out[i + 1] by {
                if i == 0 {
                    assert(out[1] == rest[0]);
                } else {
                    assert(out[i] == rest[i - 1] && out[i + 1] == rest[i]);
                }
            }
        }
    }
}

/// Commands leave the queue in the order they were queued: taking `k`
/// commands from a queue that had `more` queued behind it gives the first `k`
/// in order, and leaves the rest, the newer ones last.
pub proof fn lemma_queue_in_order(queue: Seq<Vec<u8>>, more: Seq<Vec<u8>>, k: int)
    requires
        0 <= k <= queue.len(),
    ensures
        (queue + more).take(k) == queue.take(k),
        (queue + more).skip(k) == queue.skip(k) + more,
{
    assert((queue + more).take(k) =~= queue.take(k));
    assert((queue + more).skip(k) =~= queue.skip(k) + more);
}

} // verus!
