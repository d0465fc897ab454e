use atlas_ground::command::{
    build_command_frame, command_payload, parse_major_fault_param, parse_mode_param,
    parse_small_fault_param, parse_telemetry_param, CommandRequest,
};
use atlas_ground::packet::{decode_packet, Packet};

fn request(cmd: &str, param: &str) -> CommandRequest {
    CommandRequest { cmd: cmd.to_string(), param: param.to_string() }
}

#[test]
fn mode_names() {
    assert_eq!(parse_mode_param("IDLE"), Some(0));
    assert_eq!(parse_mode_param("NORMAL"), Some(1));
    assert_eq!(parse_mode_param("NOMINAL"), Some(1));
    assert_eq!(parse_mode_param("SAFE"), Some(2));
    assert_eq!(parse_mode_param("DIAGNOSTIC"), Some(3));
    assert_eq!(parse_mode_param("safe"), None);
    assert_eq!(parse_mode_param(""), None);
}

#[test]
fn telemetry_values() {
    for p in ["0", "OFF", "DISABLE", "DISABLED", "FALSE"] {
        assert_eq!(parse_telemetry_param(p), Some(0));
    }
    for p in ["1", "ON", "ENABLE", "ENABLED", "TRUE"] {
        assert_eq!(parse_telemetry_param(p), Some(1));
    }
    assert_eq!(parse_telemetry_param("2"), None);
}

#[test]
fn fault_values() {
    assert_eq!(parse_small_fault_param("CRC_ERROR"), Some(1));
    assert_eq!(parse_small_fault_param("SYNC"), Some(2));
    assert_eq!(parse_small_fault_param("3"), Some(3));
    assert_eq!(parse_small_fault_param("SEQUENCE_ERROR"), Some(4));
    assert_eq!(parse_small_fault_param("5"), None);
    assert_eq!(parse_major_fault_param("OVER_TEMPERATURE"), Some(1));
    assert_eq!(parse_major_fault_param("HIGH_VOLTAGE"), Some(2));
    assert_eq!(parse_major_fault_param("LIGHT_FAIL"), Some(3));
    assert_eq!(parse_major_fault_param("TEMP_DIP"), Some(4));
    assert_eq!(parse_major_fault_param("5"), Some(5));
    assert_eq!(parse_major_fault_param("6"), None);
}

#[test]
fn payloads_of_upper_case_commands() {
    assert_eq!(command_payload("SET_MODE", "SAFE"), Ok(vec![0x01, 0x02]));
    assert_eq!(command_payload("REQUEST_STATUS", "ignored"), Ok(vec![0x02]));
    assert_eq!(command_payload("CLEAR_FAULTS", ""), Ok(vec![0x03]));
    assert_eq!(command_payload("SET_TELEM", "ON"), Ok(vec![0x04, 0x01]));
    assert_eq!(command_payload("INJECT_SMALL_FAULT", "SEQ"), Ok(vec![0x05, 0x04]));
    assert_eq!(command_payload("MAJOR_FAULT", "LOW_VOLTAGE"), Ok(vec![0x06, 0x05]));
}

#[test]
fn rejected_commands_name_the_culprit() {
    assert_eq!(command_payload("SET_MODE", "FLY"), Err("Unsupported mode 'FLY'".to_string()));
    assert_eq!(command_payload("TELEMETRY", "MAYBE"), Err("Unsupported telemetry value 'MAYBE'".to_string()));
    assert_eq!(command_payload("SMALL_FAULT", "9"), Err("Unsupported small fault value '9'".to_string()));
    assert_eq!(command_payload("MAJOR_FAULT", ""), Err("Unsupported major fault value ''".to_string()));
    assert_eq!(command_payload("LAUNCH", "NOW"), Err("Unsupported command 'LAUNCH'".to_string()));
}

#[test]
fn command_frames_are_trimmed_and_upper_cased() {
    let frame = build_command_frame(&request("  set_mode ", " safe\n"), 7, 1234).unwrap();
    assert_eq!(
        decode_packet(&frame),
        Ok(Packet { message_id: 0x02, sequence: 7, timestamp: 1234, payload: vec![0x01, 0x02] })
    );
    assert_eq!(frame.len(), 15);
}

#[test]
fn command_frame_errors() {
    assert_eq!(
        build_command_frame(&request(" fly ", "x"), 0, 0),
        Err("Unsupported command 'FLY'".to_string())
    );
    assert_eq!(
        build_command_frame(&request("set_mode", " warp "), 0, 0),
        Err("Unsupported mode 'WARP'".to_string())
    );
}

#[test]
fn unicode_white_space_is_trimmed() {
    let frame = build_command_frame(&request("\u{3000}clear_faults\u{A0}", ""), 1, 2).unwrap();
    assert_eq!(decode_packet(&frame).unwrap().payload, vec![0x03]);
}
