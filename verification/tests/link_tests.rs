use atlas_ground::link::{command_note, report_link_state, LiveLink, LiveLinkState, PortRead};
use atlas_ground::packet::encode_packet;
use atlas_ground::packet::Packet;
use atlas_ground::stream::{BackendMessage, StreamAction};

fn link_msg(state: &str, detail: &str) -> StreamAction {
    StreamAction::Send(BackendMessage::LinkState { state: state.to_string(), detail: detail.to_string() })
}

#[test]
fn link_state_names() {
    assert_eq!(LiveLinkState::Connecting.as_str(), "CONNECTING");
    assert_eq!(LiveLinkState::Connected.as_str(), "CONNECTED");
    assert_eq!(LiveLinkState::Reconnecting.as_str(), "RECONNECTING");
    assert_eq!(LiveLinkState::Disconnected.as_str(), "DISCONNECTED");
}

#[test]
fn link_state_reported_only_on_change() {
    let mut last = None;
    let first = report_link_state(&mut last, LiveLinkState::Connecting, "opening COM7".to_string());
    assert_eq!(
        first,
        Some(BackendMessage::LinkState { state: "CONNECTING".to_string(), detail: "opening COM7".to_string() })
    );
    assert_eq!(report_link_state(&mut last, LiveLinkState::Connecting, "opening COM7".to_string()), None);
    assert!(report_link_state(&mut last, LiveLinkState::Connecting, "waiting".to_string()).is_some());
    assert!(report_link_state(&mut last, LiveLinkState::Reconnecting, "waiting".to_string()).is_some());
    assert_eq!(last, Some((LiveLinkState::Reconnecting, "waiting".to_string())));
}

#[test]
fn live_session_lifecycle() {
    let (mut link, acts) = LiveLink::start("COM7");
    assert_eq!(acts, vec![link_msg("CONNECTING", "opening COM7")]);
    assert_eq!(
        link.on_open_failed("COM7", "no such device"),
        vec![link_msg("CONNECTING", "waiting for COM7: no such device")]
    );
    assert!(link.on_open_failed("COM7", "no such device").is_empty());
    assert_eq!(link.on_port_opened("COM7"), vec![link_msg("CONNECTED", "connected to COM7")]);
    assert!(link.has_connected_once);
    let f = encode_packet(&Packet { message_id: 1, sequence: 3, timestamp: 0, payload: vec![] });
    let acts = link.on_bytes(&f[..4]);
    assert!(acts.is_empty());
    assert_eq!(link.extractor.buffer.len(), 4);
    assert_eq!(link.on_connection_lost("COM7", "broken pipe"), vec![link_msg("RECONNECTING", "lost COM7: broken pipe")]);
    assert!(link.extractor.buffer.is_empty());
    assert_eq!(
        link.on_open_failed("COM7", "busy"),
        vec![link_msg("RECONNECTING", "waiting for COM7: busy")]
    );
    link.on_port_opened("COM7");
    assert_eq!(link.stats.expected_seq, None);
    assert_eq!(link.on_bytes(&f).len(), 3);
    assert_eq!(link.stats.expected_seq, Some(4));
    assert_eq!(link.on_stopped("COM7"), vec![link_msg("DISCONNECTED", "stopped COM7")]);
}

#[test]
fn commands_leave_in_order_and_failed_ones_go_first() {
    let (mut link, _) = LiveLink::start("p");
    link.on_port_opened("p");
    link.queue_command(vec![1]);
    link.queue_command(vec![2]);
    link.queue_command(vec![3]);
    assert_eq!(link.next_command(), Some(vec![1]));
    assert_eq!(link.next_command(), Some(vec![1]));
    assert_eq!(link.on_command_written(), Some("[CommandTx] [01]".to_string()));
    assert_eq!(link.on_command_written(), None);
    assert_eq!(link.next_command(), Some(vec![2]));
    let acts = link.on_write_failed("p", "timed out");
    assert_eq!(acts, vec![link_msg("RECONNECTING", "lost p: timed out")]);
    assert!(!link.port_open);
    assert_eq!(link.in_flight, None);
    assert_eq!(link.pending_commands.iter().cloned().collect::<Vec<_>>(), vec![vec![2], vec![3]]);
    link.on_port_opened("p");
    assert_eq!(link.next_command(), Some(vec![2]));
    assert_eq!(link.on_command_written(), Some("[CommandTx] [02]".to_string()));
    assert_eq!(link.next_command(), Some(vec![3]));
    assert_eq!(link.on_command_written(), Some("[CommandTx] [03]".to_string()));
    assert_eq!(link.next_command(), None);
}

#[test]
fn write_failure_with_nothing_in_flight_only_loses_the_link() {
    let (mut link, _) = LiveLink::start("p");
    link.on_port_opened("p");
    link.queue_command(vec![7]);
    let acts = link.on_write_failed("p", "gone");
    assert_eq!(acts, vec![link_msg("RECONNECTING", "lost p: gone")]);
    assert_eq!(link.pending_commands.len(), 1);
    assert!(!link.port_open);
}

#[test]
fn read_outcomes() {
    let (mut link, _) = LiveLink::start("COM3");
    link.on_port_opened("COM3");
    let f = encode_packet(&Packet { message_id: 1, sequence: 9, timestamp: 5, payload: vec![] });
    assert!(link.on_read("COM3", PortRead::TimedOut).is_empty());
    assert!(link.on_read("COM3", PortRead::Data(vec![])).is_empty());
    assert!(link.port_open);
    assert_eq!(link.on_read("COM3", PortRead::Data(f.clone())).len(), 3);
    assert_eq!(link.stats.ok, 1);
    assert!(link.on_read("COM3", PortRead::Data(f[..2].to_vec())).is_empty());
    assert_eq!(link.extractor.buffer.len(), 2);
    assert_eq!(
        link.on_read("COM3", PortRead::Failed("broken pipe".to_string())),
        vec![link_msg("RECONNECTING", "lost COM3: broken pipe")]
    );
    assert!(!link.port_open);
    assert!(link.extractor.buffer.is_empty());
    assert_eq!(link.stats.ok, 1);
}

#[test]
fn stopping_closes_the_port() {
    let (mut link, _) = LiveLink::start("COM3");
    link.on_port_opened("COM3");
    assert!(link.port_open);
    assert_eq!(link.on_stopped("COM3"), vec![link_msg("DISCONNECTED", "stopped COM3")]);
    assert!(!link.port_open);
    assert!(link.on_stopped("COM3").is_empty());
}

#[test]
fn reconnecting_is_reported_only_after_connected() {
    let (mut link, _) = LiveLink::start("p");
    assert_eq!(link.on_open_failed("p", "x"), vec![link_msg("CONNECTING", "waiting for p: x")]);
    assert_eq!(link.on_open_failed("p", "y"), vec![link_msg("CONNECTING", "waiting for p: y")]);
    link.on_port_opened("p");
    link.on_connection_lost("p", "z");
    assert_eq!(link.on_open_failed("p", "y"), vec![link_msg("RECONNECTING", "waiting for p: y")]);
}

#[test]
fn command_note_lists_bytes_in_hex() {
    assert_eq!(command_note(&[0xAA, 0x55, 0x02, 0x0F]), "[CommandTx] [AA, 55, 02, 0F]");
    let bytes = vec![0xAAu8, 0x55, 0x02];
    assert_eq!(command_note(&bytes), format!("[CommandTx] {:02X?}", bytes));
    assert_eq!(command_note(&[]), "[CommandTx] []");
}
