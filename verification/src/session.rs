//! Sessions of the ground station: which one is active, and the answers to
//! the operator's requests to start a session or send a command.

use crate::command::{build_command_frame, command_frame_of, normalized, trim, CommandRequest};
use crate::stream::{after_frame, messages_view, BackendMessage, MessageView, StreamStats};
use crate::text::{push_str, to_ascii_uppercase};
use std::sync::atomic::{AtomicBool, Ordering};
use std::sync::mpsc::Sender;
use std::sync::Arc;
use std::time::Instant;
use vstd::prelude::*;
use vstd::string::*;

verus! {

broadcast use vstd::string::group_string_axioms;

#[verifier::external_type_specification]
#[verifier::external_body]
pub struct ExInstant(Instant);

#[verifier::external_type_specification]
#[verifier::external_body]
#[verifier::reject_recursive_types(T)]
pub struct ExSender<T>(Sender<T>);

/// Where a session's telemetry comes from.
#[derive(Clone, Copy, Debug, PartialEq, Eq, Structural)]
pub enum SessionKind {
    Live,
    Simulation,
}

/// The session the backend is running: its kind, when it started, the flags
/// shared with its worker, the channel to its command queue (live sessions
/// only), the sequence number of the next command and its label (the port
/// name of a live session).
pub struct ActiveSession {
    pub kind: SessionKind,
    pub started_at: Instant,
    pub stop_flag: Arc<AtomicBool>,
    pub worker_alive: Arc<AtomicBool>,
    pub link_connected: Arc<AtomicBool>,
    pub command_tx: Option<Sender<Vec<u8>>>,
    pub next_command_sequence: u16,
    pub label: String,
}

/// The answer to a request to start a live session on `port` while a session
/// of the given kind and label runs: the live session on the same port is
/// kept while its worker is alive, and the answer says whether it is
/// connected; otherwise a new session is started (`None`).
pub open spec fn live_start_reply(kind: SessionKind, label: Seq<char>, worker_alive: bool, link_connected: bool, port: Seq<char>) -> Option<Seq<char>> {
    if kind == SessionKind::Live && label == port && worker_alive {
        if link_connected {
            Some("live session already running on "@ + port)
        } else {
            Some("live session reconnecting on "@ + port)
        }
    } else {
        None
    }
}

/// A request to start a live session is answered by the running session
/// only while that session is live, on the same port, and its worker is
/// alive; a live session whose worker has ended is replaced by a new one, and
/// any other session (another port, or a simulation) is replaced too.
pub proof fn lemma_live_start_keeps_only_running_worker(kind: SessionKind, label: Seq<char>, worker_alive: bool, link_connected: bool, port: Seq<char>)
    ensures
        !worker_alive ==> live_start_reply(kind, label, worker_alive, link_connected, port) is None,
        label != port ==> live_start_reply(kind, label, worker_alive, link_connected, port) is None,
        kind == SessionKind::Simulation ==> live_start_reply(kind, label, worker_alive, link_connected, port) is None,
        kind == SessionKind::Live && label == port && worker_alive ==> live_start_reply(kind, label, worker_alive, link_connected, port) is Some,
        live_start_reply(kind, label, true, true, port) is Some ==> live_start_reply(kind, label, true, false, port) is Some
            && live_start_reply(kind, label, true, true, port) != live_start_reply(kind, label, true, false, port),
{
    if live_start_reply(kind, label, true, true, port) is Some {
        let a = "live session already running on "@ + port;
        let b = "live session reconnecting on "@ + port;
        reveal_strlit("live session already running on ");
        reveal_strlit("live session reconnecting on ");
        assert(a[13] != b[13]);
    }
}

/// Decides whether a request to start a live session on `port` is answered
/// by the session already running.
pub fn live_start_decision(kind: SessionKind, label: &str, worker_alive: bool, link_connected: bool, port: &str) -> (r: Option<String>)
    ensures
        match r {
            Some(m) => live_start_reply(kind, label@, worker_alive, link_connected, port@) == Some(m@),
            None => live_start_reply(kind, label@, worker_alive, link_connected, port@) is None,
        },
{
    if kind == SessionKind::Live && String::from_str(label) == String::from_str(port) && worker_alive {
        let mut m = if link_connected {
            String::from_str("live session already running on ")
        } else {
            String::from_str("live session reconnecting on ")
        };
        push_str(&mut m, port);
        Some(m)
    } else {
        None
    }
}

/// The reason a simulation run ends when it was asked to stop.
pub open spec fn stop_reason_text() -> Seq<char> {
    "session stopped"@
}

/// What a simulation does with its next frame: once the session has been
/// asked to stop, it takes no more frames and the run ends with the stop
/// reason; otherwise the frame is decoded and accounted for, and the messages
/// to broadcast are returned in order.
pub fn simulation_frame(stopped: bool, stats: &mut StreamStats, frame: &[u8]) -> (r: Result<Vec<BackendMessage>, String>)
    ensures
        stopped ==> (r matches Err(e) && e@ == stop_reason_text()) && *final(stats) == *old(stats),
        !stopped ==> (r matches Ok(msgs) && (*final(stats), messages_view(msgs@)) == after_frame(*old(stats), frame@)),
{
    if stopped {
        Err(String::from_str("session stopped"))
    } else {
        Ok(stats.process_frame(frame))
    }
}

/// The message that reports why a simulation run ended early: none when it
/// was asked to stop, else a simulation error with the reason as its detail.
pub fn simulation_failure_report(reason: &str) -> (m: Option<BackendMessage>)
    ensures
        reason@ == stop_reason_text() ==> m is None,
        reason@ != stop_reason_text() ==> (m matches Some(msg) && msg@ == (MessageView::Error { kind: "Simulation"@, detail: reason@ })),
{
    let r = String::from_str(reason);
    if r == String::from_str("session stopped") {
        None
    } else {
        Some(BackendMessage::Error { kind: String::from_str("Simulation"), detail: r })
    }
}

/// Why a command request was refused.
#[derive(Debug, Clone, PartialEq, Eq)]
pub enum CommandRejection {
    /// No session is running.
    NoSession,
    /// The running session is a simulation.
    NotLive,
    /// The live session's worker has stopped; the session is dropped.
    WorkerStopped,
    /// The live session has no command channel.
    NoChannel,
    /// The request names no known command or argument.
    Invalid(String),
    /// The command could not be queued; the session is dropped.
    QueueFailed,
}

/// The HTTP status that answers a rejection.
pub open spec fn rejection_status(r: CommandRejection) -> u16 {
    match r {
        CommandRejection::Invalid(_) => 400,
        CommandRejection::QueueFailed => 500,
        _ => 409,
    }
}

/// The message that explains a rejection.
pub open spec fn rejection_text(r: CommandRejection) -> Seq<char> {
    match r {
        CommandRejection::NoSession => "no active session"@,
        CommandRejection::NotLive => "commands require an active live session"@,
        CommandRejection::WorkerStopped => "live session is not running; restart the live link"@,
        CommandRejection::NoChannel => "live session command channel unavailable"@,
        CommandRejection::Invalid(m) => m@,
        CommandRejection::QueueFailed => "failed to queue command; restart the live link"@,
    }
}

impl CommandRejection {
    /// The HTTP status of the answer: 400 for a bad request, 500 when the
    /// command could not be queued, 409 otherwise.
    pub fn status_code(&self) -> (code: u16)
        ensures
            code == rejection_status(*self),
    {
        match self {
            CommandRejection::Invalid(_) => 400,
            CommandRejection::QueueFailed => 500,
            _ => 409,
        }
    }

    /// The text of the answer.
    pub fn message(&self) -> (m: String)
        ensures
            m@ == rejection_text(*self),
    {
        match self {
            CommandRejection::NoSession => String::from_str("no active session"),
            CommandRejection::NotLive => String::from_str("commands require an active live session"),
            CommandRejection::WorkerStopped => String::from_str("live session is not running; restart the live link"),
            CommandRejection::NoChannel => String::from_str("live session command channel unavailable"),
            CommandRejection::Invalid(m) => m.clone(),
            CommandRejection::QueueFailed => String::from_str("failed to queue command; restart the live link"),
        }
    }
}

/// Whether a command may be sent to a session, checked in order: the session
/// must be live, its worker alive, and it must have a command channel.
pub open spec fn command_admitted(kind: SessionKind, worker_alive: bool, has_channel: bool) -> Result<(), CommandRejection> {
    if kind != SessionKind::Live {
        Err(CommandRejection::NotLive)
    } else if !worker_alive {
        Err(CommandRejection::WorkerStopped)
    } else if !has_channel {
        Err(CommandRejection::NoChannel)
    } else {
        Ok(())
    }
}

/// Checks that a command may be sent to a session.
pub fn admit_command(kind: SessionKind, worker_alive: bool, has_channel: bool) -> (r: Result<(), CommandRejection>)
    ensures
        r == command_admitted(kind, worker_alive, has_channel),
{
    if kind != SessionKind::Live {
        Err(CommandRejection::NotLive)
    } else if !worker_alive {
        Err(CommandRejection::WorkerStopped)
    } else if !has_channel {
        Err(CommandRejection::NoChannel)
    } else {
        Ok(())
    }
}

/// The answer to a queued command: its normalised name, and whether the link
/// was reconnecting.
pub open spec fn queued_reply(cmd: Seq<char>, link_connected: bool) -> Seq<char> {
    if link_connected {
        "queued "@ + normalized(cmd)
    } else {
        "queued "@ + normalized(cmd) + " while reconnecting"@
    }
}

/// What a session's worker reported when the command arrived.
pub struct SessionFlags {
    pub worker_alive: bool,
    pub link_connected: bool,
}

impl ActiveSession {
    /// Reads the worker's flags. What they hold depends on the worker thread;
    /// nothing is claimed of them.
    pub fn flags(&self) -> (f: SessionFlags) {
        SessionFlags {
            worker_alive: self.worker_alive.load(Ordering::Relaxed),
            link_connected: self.link_connected.load(Ordering::Relaxed),
        }
    }

    /// The answer to a request to start a live session on `port`, if this
    /// session is that live session and its worker is alive.
    pub fn live_start_reply(&self, port: &str) -> (r: Option<String>)
        ensures
            !(self.kind == SessionKind::Live && self.label@ == port@) ==> r is None,
            r matches Some(m) ==> m@ == "live session already running on "@ + port@
                || m@ == "live session reconnecting on "@ + port@,
    {
        let flags = self.flags();
        live_start_decision(self.kind, self.label.as_str(), flags.worker_alive, flags.link_connected, port)
    }

    /// Admits a command to this session, given the worker's flags: builds its
    /// frame with the session's next command sequence number and the given
    /// time since the session started, and advances that number; returns the
    /// frame and the answer for the operator.
    pub fn prepare_command(&mut self, request: &CommandRequest, flags: SessionFlags, elapsed_ms: u32) -> (r: Result<(Vec<u8>, String), CommandRejection>)
        ensures
            match command_admitted(old(self).kind, flags.worker_alive, old(self).command_tx is Some) {
                Err(e) => r == Err::<(Vec<u8>, String), CommandRejection>(e) && final(self).next_command_sequence == old(self).next_command_sequence,
                Ok(()) => match command_frame_of(request.cmd@, request.param@, old(self).next_command_sequence, elapsed_ms) {
                    Err(m) => r matches Err(CommandRejection::Invalid(msg)) && msg@ == m
                        && final(self).next_command_sequence == old(self).next_command_sequence,
                    Ok(frame) => r matches Ok((f, reply)) && f@ == frame
                        && reply@ == queued_reply(request.cmd@, flags.link_connected)
                        && final(self).next_command_sequence == old(self).next_command_sequence.wrapping_add(1),
                },
            },
            final(self).kind == old(self).kind,
            final(self).label == old(self).label,
            final(self).started_at == old(self).started_at,
            final(self).stop_flag == old(self).stop_flag,
            final(self).worker_alive == old(self).worker_alive,
            final(self).link_connected == old(self).link_connected,
            final(self).command_tx == old(self).command_tx,
    {
        match admit_command(self.kind, flags.worker_alive, self.command_tx.is_some()) {
            Err(e) => {
                return Err(e);
            },
            Ok(()) => {},
        }
        let frame = match build_command_frame(request, self.next_command_sequence, elapsed_ms) {
            Err(m) => {
                return Err(CommandRejection::Invalid(m));
            },
            Ok(f) => f,
        };
        self.next_command_sequence = self.next_command_sequence.wrapping_add(1);
        let mut reply = String::from_str("queued ");
        let name = to_ascii_uppercase(trim(request.cmd.as_str()));
        push_str(&mut reply, name.as_str());
        if !flags.link_connected {
            push_str(&mut reply, " while reconnecting");
        }
        Ok((frame, reply))
    }
}

} // verus!
