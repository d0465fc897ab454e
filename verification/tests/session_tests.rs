use atlas_ground::command::CommandRequest;
use atlas_ground::packet::{decode_packet, Packet};
use atlas_ground::session::{
    admit_command, live_start_decision, simulation_failure_report, simulation_frame, ActiveSession, CommandRejection,
    SessionFlags, SessionKind,
};
use atlas_ground::packet::encode_packet;
use atlas_ground::stream::{BackendMessage, StreamStats};
use std::sync::atomic::AtomicBool;
use std::sync::{mpsc, Arc};
use std::time::Instant;

fn session(kind: SessionKind, with_channel: bool) -> (ActiveSession, Option<mpsc::Receiver<Vec<u8>>>) {
    let (tx, rx) = mpsc::channel();
    let s = ActiveSession {
        kind,
        started_at: Instant::now(),
        stop_flag: Arc::new(AtomicBool::new(false)),
        worker_alive: Arc::new(AtomicBool::new(true)),
        link_connected: Arc::new(AtomicBool::new(true)),
        command_tx: if with_channel { Some(tx) } else { None },
        next_command_sequence: 65535,
        label: "COM7".to_string(),
    };
    (s, Some(rx))
}

#[test]
fn live_start_keeps_a_running_session_on_the_same_port() {
    assert_eq!(
        live_start_decision(SessionKind::Live, "COM7", true, true, "COM7"),
        Some("live session already running on COM7".to_string())
    );
    assert_eq!(
        live_start_decision(SessionKind::Live, "COM7", true, false, "COM7"),
        Some("live session reconnecting on COM7".to_string())
    );
    assert_eq!(live_start_decision(SessionKind::Live, "COM7", false, true, "COM7"), None);
    assert_eq!(live_start_decision(SessionKind::Live, "COM8", true, true, "COM7"), None);
    assert_eq!(live_start_decision(SessionKind::Simulation, "COM7", true, true, "COM7"), None);
}

#[test]
fn session_reads_its_own_flags() {
    let (s, _rx) = session(SessionKind::Live, true);
    assert_eq!(s.live_start_reply("COM7"), Some("live session already running on COM7".to_string()));
    assert_eq!(s.live_start_reply("COM8"), None);
    let f = s.flags();
    assert!(f.worker_alive && f.link_connected);
}

#[test]
fn command_admission_order() {
    assert_eq!(admit_command(SessionKind::Simulation, false, false), Err(CommandRejection::NotLive));
    assert_eq!(admit_command(SessionKind::Live, false, false), Err(CommandRejection::WorkerStopped));
    assert_eq!(admit_command(SessionKind::Live, true, false), Err(CommandRejection::NoChannel));
    assert_eq!(admit_command(SessionKind::Live, true, true), Ok(()));
}

#[test]
fn rejection_answers() {
    assert_eq!(CommandRejection::NoSession.status_code(), 409);
    assert_eq!(CommandRejection::NoSession.message(), "no active session");
    assert_eq!(CommandRejection::NotLive.message(), "commands require an active live session");
    assert_eq!(CommandRejection::WorkerStopped.message(), "live session is not running; restart the live link");
    assert_eq!(CommandRejection::NoChannel.message(), "live session command channel unavailable");
    assert_eq!(CommandRejection::Invalid("bad".to_string()).status_code(), 400);
    assert_eq!(CommandRejection::Invalid("bad".to_string()).message(), "bad");
    assert_eq!(CommandRejection::QueueFailed.status_code(), 500);
    assert_eq!(CommandRejection::QueueFailed.message(), "failed to queue command; restart the live link");
}

#[test]
fn prepared_command_uses_and_advances_the_sequence() {
    let (mut s, _rx) = session(SessionKind::Live, true);
    let req = CommandRequest { cmd: " clear_faults ".to_string(), param: String::new() };
    let (frame, reply) = s
        .prepare_command(&req, SessionFlags { worker_alive: true, link_connected: false }, 42)
        .unwrap();
    assert_eq!(reply, "queued CLEAR_FAULTS while reconnecting");
    assert_eq!(
        decode_packet(&frame),
        Ok(Packet { message_id: 2, sequence: 65535, timestamp: 42, payload: vec![3] })
    );
    assert_eq!(s.next_command_sequence, 0);
    let (_, reply) = s
        .prepare_command(&req, SessionFlags { worker_alive: true, link_connected: true }, 43)
        .unwrap();
    assert_eq!(reply, "queued CLEAR_FAULTS");
    assert_eq!(s.next_command_sequence, 1);
}

#[test]
fn refused_command_keeps_the_sequence() {
    let (mut s, _rx) = session(SessionKind::Live, true);
    let bad = CommandRequest { cmd: "set_mode".to_string(), param: "warp".to_string() };
    let r = s.prepare_command(&bad, SessionFlags { worker_alive: true, link_connected: true }, 0);
    assert_eq!(r, Err(CommandRejection::Invalid("Unsupported mode 'WARP'".to_string())));
    assert_eq!(s.next_command_sequence, 65535);
    let r = s.prepare_command(&bad, SessionFlags { worker_alive: false, link_connected: true }, 0);
    assert_eq!(r, Err(CommandRejection::WorkerStopped));
    let (mut sim, _rx) = session(SessionKind::Simulation, false);
    let r = sim.prepare_command(&bad, SessionFlags { worker_alive: true, link_connected: true }, 0);
    assert_eq!(r, Err(CommandRejection::NotLive));
}

#[test]
fn stopped_simulation_takes_no_more_frames() {
    let mut stats = StreamStats::new();
    let f = encode_packet(&Packet { message_id: 1, sequence: 0, timestamp: 0, payload: vec![] });
    assert_eq!(simulation_frame(true, &mut stats, &f), Err("session stopped".to_string()));
    assert_eq!(stats.ok, 0);
    let msgs = simulation_frame(false, &mut stats, &f).unwrap();
    assert_eq!(msgs.len(), 2);
    assert_eq!(stats.ok, 1);
}

#[test]
fn simulation_failures_are_reported_unless_stopped() {
    assert_eq!(simulation_failure_report("session stopped"), None);
    assert_eq!(
        simulation_failure_report("broken pipe"),
        Some(BackendMessage::Error { kind: "Simulation".to_string(), detail: "broken pipe".to_string() })
    );
    assert!(simulation_failure_report("session stopped ").is_some());
}
