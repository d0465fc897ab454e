//! Operator commands: from a command name and parameter typed in the console
//! to the command frame sent to the firmware.

use crate::packet::{decode_frame, encode_packet, encoded_frame, lemma_decode_inverts_encode, DecodeError, Packet, PacketView};
use crate::text::{push_str, to_ascii_uppercase, ascii_upper};
use vstd::prelude::*;
use vstd::string::*;

verus! {

broadcast use vstd::string::group_string_axioms;

/// Message id of a command frame.
pub const MESSAGE_ID_COMMAND: u8 = 0x02;

pub const COMMAND_ID_SET_MODE: u8 = 0x01;
pub const COMMAND_ID_REQUEST_STATUS: u8 = 0x02;
pub const COMMAND_ID_CLEAR_FAULTS: u8 = 0x03;
pub const COMMAND_ID_SET_TELEMETRY_ENABLE: u8 = 0x04;
pub const COMMAND_ID_SMALL_FAULT: u8 = 0x05;
pub const COMMAND_ID_MAJOR_FAULT: u8 = 0x06;

/// A command as the operator console sends it: a name and an optional parameter.
#[derive(Debug, Clone)]
pub struct CommandRequest {
    pub cmd: String,
    pub param: String,
}

/// Whether a character has the Unicode `White_Space` property.
pub open spec fn is_white_space(c: char) -> bool {
    ||| '\u{9}' <= c && c <= '\u{D}'
    ||| c == ' '
    ||| c == '\u{85}'
    ||| c == '\u{A0}'
    ||| c == '\u{1680}'
    ||| '\u{2000}' <= c && c <= '\u{200A}'
    ||| c == '\u{2028}'
    ||| c == '\u{2029}'
    ||| c == '\u{202F}'
    ||| c == '\u{205F}'
    ||| c == '\u{3000}'
}

/// A string without its leading white space.
pub open spec fn trim_start(s: Seq<char>) -> Seq<char>
    decreases s.len(),
{
    if s.len() > 0 && is_white_space(s[0]) {
        trim_start(s.drop_first())
    } else {
        s
    }
}

/// A string without its trailing white space.
pub open spec fn trim_end(s: Seq<char>) -> Seq<char>
    decreases s.len(),
{
    if s.len() > 0 && is_white_space(s.last()) {
        trim_end(s.drop_last())
    } else {
        s
    }
}

/// A string without its leading and trailing white space.
pub open spec fn trimmed(s: Seq<char>) -> Seq<char> {
    trim_end(trim_start(s))
}

/// Removes leading and trailing white space with `str::trim`, which, as its
/// documentation says, removes the characters with the Unicode `White_Space`
/// property from both ends.
#[verifier::external_body]
pub(crate) fn trim(s: &str) -> (r: &str)
    ensures
        r@ == trimmed(s@),
{
    s.trim()
}

fn str_eq(a: &str, b: &str) -> (r: bool)
    ensures
        r == (a@ == b@),
{
    String::from_str(a) == String::from_str(b)
}

/// The mode byte named by a parameter.
pub open spec fn mode_code(p: Seq<char>) -> Option<u8> {
    if p == "IDLE"@ {
        Some(0x00)
    } else if p == "NORMAL"@ || p == "NOMINAL"@ {
        Some(0x01)
    } else if p == "SAFE"@ {
        Some(0x02)
    } else if p == "DIAGNOSTIC"@ {
        Some(0x03)
    } else {
        None
    }
}

/// The telemetry switch byte named by a parameter.
pub open spec fn telemetry_code(p: Seq<char>) -> Option<u8> {
    if p == "0"@ || p == "OFF"@ || p == "DISABLE"@ || p == "DISABLED"@ || p == "FALSE"@ {
        Some(0x00)
    } else if p == "1"@ || p == "ON"@ || p == "ENABLE"@ || p == "ENABLED"@ || p == "TRUE"@ {
        Some(0x01)
    } else {
        None
    }
}

/// The small-fault code named by a parameter.
pub open spec fn small_fault_code(p: Seq<char>) -> Option<u8> {
    if p == "1"@ || p == "CRC"@ || p == "CRC_ERROR"@ {
        Some(0x01)
    } else if p == "2"@ || p == "SYNC"@ || p == "SYNC_ERROR"@ {
        Some(0x02)
    } else if p == "3"@ || p == "LENGTH"@ || p == "LENGTH_ERROR"@ {
        Some(0x03)
    } else if p == "4"@ || p == "SEQ"@ || p == "SEQUENCE"@ || p == "SEQ_ERROR"@ || p
        == "SEQUENCE_ERROR"@ {
        Some(0x04)
    } else {
        None
    }
}

/// The major-fault code named by a parameter.
pub open spec fn major_fault_code(p: Seq<char>) -> Option<u8> {
    if p == "1"@ || p == "TEMP_SPIKE"@ || p == "OVER_TEMPERATURE"@ {
        Some(0x01)
    } else if p == "2"@ || p == "VOLTAGE_SPIKE"@ || p == "HIGH_VOLTAGE"@ {
        Some(0x02)
    } else if p == "3"@ || p == "LIGHT_SENSOR_FAILURE"@ || p == "LIGHT_FAIL"@ || p
        == "LIGHT_FAILURE"@ {
        Some(0x03)
    } else if p == "4"@ || p == "TEMP_DIP"@ || p == "UNDER_TEMPERATURE"@ {
        Some(0x04)
    } else if p == "5"@ || p == "VOLTAGE_DROP"@ || p == "LOW_VOLTAGE"@ {
        Some(0x05)
    } else {
        None
    }
}

/// Parses a mode name (already upper case).
pub fn parse_mode_param(param: &str) -> (r: Option<u8>)
    ensures
        r == mode_code(param@),
{
    if str_eq(param, "IDLE") {
        Some(0x00)
    } else if str_eq(param, "NORMAL") || str_eq(param, "NOMINAL") {
        Some(0x01)
    } else if str_eq(param, "SAFE") {
        Some(0x02)
    } else if str_eq(param, "DIAGNOSTIC") {
        Some(0x03)
    } else {
        None
    }
}

/// Parses a telemetry on/off value (already upper case).
pub fn parse_telemetry_param(param: &str) -> (r: Option<u8>)
    ensures
        r == telemetry_code(param@),
{
    if str_eq(param, "0") || str_eq(param, "OFF") || str_eq(param, "DISABLE") || str_eq(
        param,
        "DISABLED",
    ) || str_eq(param, "FALSE") {
        Some(0x00)
    } else if str_eq(param, "1") || str_eq(param, "ON") || str_eq(param, "ENABLE") || str_eq(
        param,
        "ENABLED",
    ) || str_eq(param, "TRUE") {
        Some(0x01)
    } else {
        None
    }
}

/// Parses a small-fault name or number (already upper case).
pub fn parse_small_fault_param(param: &str) -> (r: Option<u8>)
    ensures
        r == small_fault_code(param@),
{
    if str_eq(param, "1") || str_eq(param, "CRC") || str_eq(param, "CRC_ERROR") {
        Some(0x01)
    } else if str_eq(param, "2") || str_eq(param, "SYNC") || str_eq(param, "SYNC_ERROR") {
        Some(0x02)
    } else if str_eq(param, "3") || str_eq(param, "LENGTH") || str_eq(param, "LENGTH_ERROR") {
        Some(0x03)
    } else if str_eq(param, "4") || str_eq(param, "SEQ") || str_eq(param, "SEQUENCE") || str_eq(
        param,
        "SEQ_ERROR",
    ) || str_eq(param, "SEQUENCE_ERROR") {
        Some(0x04)
    } else {
        None
    }
}

/// Parses a major-fault name or number (already upper case).
pub fn parse_major_fault_param(param: &str) -> (r: Option<u8>)
    ensures
        r == major_fault_code(param@),
{
    if str_eq(param, "1") || str_eq(param, "TEMP_SPIKE") || str_eq(param, "OVER_TEMPERATURE") {
        Some(0x01)
    } else if str_eq(param, "2") || str_eq(param, "VOLTAGE_SPIKE") || str_eq(param, "HIGH_VOLTAGE") {
        Some(0x02)
    } else if str_eq(param, "3") || str_eq(param, "LIGHT_SENSOR_FAILURE") || str_eq(
        param,
        "LIGHT_FAIL",
    ) || str_eq(param, "LIGHT_FAILURE") {
        Some(0x03)
    } else if str_eq(param, "4") || str_eq(param, "TEMP_DIP") || str_eq(param, "UNDER_TEMPERATURE") {
        Some(0x04)
    } else if str_eq(param, "5") || str_eq(param, "VOLTAGE_DROP") || str_eq(param, "LOW_VOLTAGE") {
        Some(0x05)
    } else {
        None
    }
}

/// The message `prefix'value'`.
pub open spec fn quoted(prefix: Seq<char>, value: Seq<char>) -> Seq<char> {
    prefix + "'"@ + value + "'"@
}

fn quoted_message(prefix: &str, value: &str) -> (r: String)
    ensures
        r@ == quoted(prefix@, value@),
{
    let mut s = String::from_str(prefix);
    push_str(&mut s, "'");
    push_str(&mut s, value);
    push_str(&mut s, "'");
    s
}

/// A command byte followed by an argument byte, or the message naming the
/// rejected argument.
pub open spec fn with_argument(id: u8, arg: Option<u8>, prefix: Seq<char>, param: Seq<char>) -> Result<Seq<u8>, Seq<char>> {
    match arg {
        Some(a) => Ok(seq![id, a]),
        None => Err(quoted(prefix, param)),
    }
}

/// The payload of a command, from its upper-case name and parameter, or the
/// message that rejects it.
pub open spec fn command_payload_of(cmd: Seq<char>, param: Seq<char>) -> Result<Seq<u8>, Seq<char>> {
    if cmd == "SET_MODE"@ {
        with_argument(COMMAND_ID_SET_MODE, mode_code(param), "Unsupported mode "@, param)
    } else if cmd == "REQUEST_STATUS"@ {
        Ok(seq![COMMAND_ID_REQUEST_STATUS])
    } else if cmd == "CLEAR_FAULTS"@ {
        Ok(seq![COMMAND_ID_CLEAR_FAULTS])
    } else if cmd == "SET_TELEMETRY_ENABLE"@ || cmd == "SET_TELEM"@ || cmd == "TELEMETRY"@ {
        with_argument(
            COMMAND_ID_SET_TELEMETRY_ENABLE,
            telemetry_code(param),
            "Unsupported telemetry value "@,
            param,
        )
    } else if cmd == "SMALL_FAULT"@ || cmd == "INJECT_SMALL_FAULT"@ {
        with_argument(
            COMMAND_ID_SMALL_FAULT,
            small_fault_code(param),
            "Unsupported small fault value "@,
            param,
        )
    } else if cmd == "MAJOR_FAULT"@ || cmd == "INJECT_MAJOR_FAULT"@ {
        with_argument(
            COMMAND_ID_MAJOR_FAULT,
            major_fault_code(param),
            "Unsupported major fault value "@,
            param,
        )
    } else {
        Err(quoted("Unsupported command "@, cmd))
    }
}

fn argument_payload(id: u8, arg: Option<u8>, prefix: &str, param: &str) -> (r: Result<Vec<u8>, String>)
    ensures
        match r {
            Ok(v) => with_argument(id, arg, prefix@, param@) == Ok::<Seq<u8>, Seq<char>>(v@),
            Err(m) => with_argument(id, arg, prefix@, param@) == Err::<Seq<u8>, Seq<char>>(m@),
        },
{
    match arg {
        Some(a) => {
            let v = vec![id, a];
            assert(v@ =~= seq![id, a]);
            Ok(v)
        },
        None => Err(quoted_message(prefix, param)),
    }
}

/// The payload of a command from its upper-case name and parameter: the
/// command id followed by its argument byte, or the message that rejects an
/// unknown command or argument.
pub fn command_payload(command_name: &str, param: &str) -> (r: Result<Vec<u8>, String>)
    ensures
        match r {
            Ok(v) => command_payload_of(command_name@, param@) == Ok::<Seq<u8>, Seq<char>>(v@),
            Err(m) => command_payload_of(command_name@, param@) == Err::<Seq<u8>, Seq<char>>(m@),
        },
{
    if str_eq(command_name, "SET_MODE") {
        argument_payload(COMMAND_ID_SET_MODE, parse_mode_param(param), "Unsupported mode ", param)
    } else if str_eq(command_name, "REQUEST_STATUS") {
        let v = vec![COMMAND_ID_REQUEST_STATUS];
        assert(v@ =~= seq![COMMAND_ID_REQUEST_STATUS]);
        Ok(v)
    } else if str_eq(command_name, "CLEAR_FAULTS") {
        let v = vec![COMMAND_ID_CLEAR_FAULTS];
        assert(v@ =~= seq![COMMAND_ID_CLEAR_FAULTS]);
        Ok(v)
    } else if str_eq(command_name, "SET_TELEMETRY_ENABLE") || str_eq(command_name, "SET_TELEM")
        || str_eq(command_name, "TELEMETRY") {
        argument_payload(
            COMMAND_ID_SET_TELEMETRY_ENABLE,
            parse_telemetry_param(param),
            "Unsupported telemetry value ",
            param,
        )
    } else if str_eq(command_name, "SMALL_FAULT") || str_eq(command_name, "INJECT_SMALL_FAULT") {
        argument_payload(
            COMMAND_ID_SMALL_FAULT,
            parse_small_fault_param(param),
            "Unsupported small fault value ",
            param,
        )
    } else if str_eq(command_name, "MAJOR_FAULT") || str_eq(command_name, "INJECT_MAJOR_FAULT") {
        argument_payload(
            COMMAND_ID_MAJOR_FAULT,
            parse_major_fault_param(param),
            "Unsupported major fault value ",
            param,
        )
    } else {
        Err(quoted_message("Unsupported command ", command_name))
    }
}

/// A console entry as the firmware reads it: trimmed and upper case.
pub open spec fn normalized(s: Seq<char>) -> Seq<char> {
    trimmed(s).map_values(|c: char| ascii_upper(c))
}

/// The command packet for a payload.
pub open spec fn command_packet(payload: Seq<u8>, sequence: u16, timestamp_ms: u32) -> PacketView {
    PacketView { message_id: MESSAGE_ID_COMMAND, sequence, timestamp: timestamp_ms, payload }
}

/// What building a command frame from a request gives: the encoded command
/// packet, or the message that rejects the request.
pub open spec fn command_frame_of(cmd: Seq<char>, param: Seq<char>, sequence: u16, timestamp_ms: u32) -> Result<Seq<u8>, Seq<char>> {
    match command_payload_of(normalized(cmd), normalized(param)) {
        Ok(payload) => Ok(encoded_frame(command_packet(payload, sequence, timestamp_ms))),
        Err(m) => Err(m),
    }
}

/// Builds the command frame for an operator request: name and parameter are
/// trimmed and upper-cased, the payload is the command id and its argument,
/// and the frame carries the given sequence number and timestamp.
pub fn build_command_frame(request: &CommandRequest, sequence: u16, timestamp_ms: u32) -> (r: Result<Vec<u8>, String>)
    ensures
        match r {
            Ok(v) => command_frame_of(request.cmd@, request.param@, sequence, timestamp_ms) == Ok::<Seq<u8>, Seq<char>>(v@),
            Err(m) => command_frame_of(request.cmd@, request.param@, sequence, timestamp_ms) == Err::<Seq<u8>, Seq<char>>(m@),
        },
{
    let command_name = to_ascii_uppercase(trim(request.cmd.as_str()));
    let param = to_ascii_uppercase(trim(request.param.as_str()));
    match command_payload(command_name.as_str(), param.as_str()) {
        Err(m) => Err(m),
        Ok(payload) => {
            proof {
                assert(payload@.len() <= 2);
            }
            let packet = Packet { message_id: MESSAGE_ID_COMMAND, sequence, timestamp: timestamp_ms, payload };
            assert(packet@ =~= command_packet(packet.payload@, sequence, timestamp_ms));
            Ok(encode_packet(&packet))
        },
    }
}

/// Every command frame the ground station builds decodes, on the firmware's
/// side, to a command packet with the requested sequence number, timestamp
/// and payload.
pub proof fn lemma_command_frame_decodes(cmd: Seq<char>, param: Seq<char>, sequence: u16, timestamp_ms: u32)
    requires
        command_frame_of(cmd, param, sequence, timestamp_ms) is Ok,
    ensures
        ({
            let payload = command_payload_of(normalized(cmd), normalized(param))->Ok_0;
            decode_frame(command_frame_of(cmd, param, sequence, timestamp_ms)->Ok_0)
                == Ok::<PacketView, DecodeError>(command_packet(payload, sequence, timestamp_ms))
        }),
{
    let payload = command_payload_of(normalized(cmd), normalized(param))->Ok_0;
    assert(payload.len() <= 2);
    lemma_decode_inverts_encode(command_packet(payload, sequence, timestamp_ms));
}

/// What a payload with an optional argument must be: the command id and the
/// argument when the parameter names one, a rejection otherwise.
pub open spec fn payload_with(r: Result<Seq<u8>, Seq<char>>, id: u8, arg: Option<u8>) -> bool {
    match arg {
        Some(a) => r == Ok::<Seq<u8>, Seq<char>>(seq![id, a]),
        None => r is Err,
    }
}

/// The names the protocol gives its commands, aliases included.
pub open spec fn known_command(cmd: Seq<char>) -> bool {
    ||| cmd == "SET_MODE"@
    ||| cmd == "REQUEST_STATUS"@
    ||| cmd == "CLEAR_FAULTS"@
    ||| cmd == "SET_TELEMETRY_ENABLE"@
    ||| cmd == "SET_TELEM"@
    ||| cmd == "TELEMETRY"@
    ||| cmd == "SMALL_FAULT"@
    ||| cmd == "INJECT_SMALL_FAULT"@
    ||| cmd == "MAJOR_FAULT"@
    ||| cmd == "INJECT_MAJOR_FAULT"@
}

/// The protocol's command table: for every parameter, each command name and
/// each of its aliases gives its command id (set mode 0x01, request status
/// 0x02, clear faults 0x03, telemetry switch 0x04, small fault 0x05, major
/// fault 0x06) followed by the argument byte the parameter names, or a
/// rejection when it names none; the two commands without argument ignore
/// the parameter; any other name is refused as unsupported.
pub proof fn lemma_command_table(cmd: Seq<char>, param: Seq<char>)
    ensures
        payload_with(command_payload_of("SET_MODE"@, param), 0x01, mode_code(param)),
        command_payload_of("REQUEST_STATUS"@, param) == Ok::<Seq<u8>, Seq<char>>(seq![0x02u8]),
        command_payload_of("CLEAR_FAULTS"@, param) == Ok::<Seq<u8>, Seq<char>>(seq![0x03u8]),
        payload_with(command_payload_of("SET_TELEMETRY_ENABLE"@, param), 0x04, telemetry_code(param)),
        payload_with(command_payload_of("SET_TELEM"@, param), 0x04, telemetry_code(param)),
        payload_with(command_payload_of("TELEMETRY"@, param), 0x04, telemetry_code(param)),
        payload_with(command_payload_of("SMALL_FAULT"@, param), 0x05, small_fault_code(param)),
        payload_with(command_payload_of("INJECT_SMALL_FAULT"@, param), 0x05, small_fault_code(param)),
        payload_with(command_payload_of("MAJOR_FAULT"@, param), 0x06, major_fault_code(param)),
        payload_with(command_payload_of("INJECT_MAJOR_FAULT"@, param), 0x06, major_fault_code(param)),
        !known_command(cmd) ==> command_payload_of(cmd, param) == Err::<Seq<u8>, Seq<char>>(quoted("Unsupported command "@, cmd)),
        known_command(cmd) && command_payload_of(cmd, param) is Ok ==> command_payload_of(cmd, param)->Ok_0.len() >= 1,
{
    reveal_strlit("SET_MODE");
    assert("SET_MODE"@.len() == 8);
    reveal_strlit("REQUEST_STATUS");
    assert("REQUEST_STATUS"@.len() == 14);
    reveal_strlit("CLEAR_FAULTS");
    assert("CLEAR_FAULTS"@.len() == 12);
    reveal_strlit("SET_TELEMETRY_ENABLE");
    assert("SET_TELEMETRY_ENABLE"@.len() == 20);
    reveal_strlit("SET_TELEM");
    assert("SET_TELEM"@.len() == 9);
    reveal_strlit("TELEMETRY");
    assert("TELEMETRY"@.len() == 9);
    reveal_strlit("SMALL_FAULT");
    assert("SMALL_FAULT"@.len() == 11);
    reveal_strlit("INJECT_SMALL_FAULT");
    assert("INJECT_SMALL_FAULT"@.len() == 18);
    reveal_strlit("MAJOR_FAULT");
    assert("MAJOR_FAULT"@.len() == 11);
    reveal_strlit("INJECT_MAJOR_FAULT");
    assert("INJECT_MAJOR_FAULT"@.len() == 18);
    assert("SET_TELEM"@[0] != "TELEMETRY"@[0]);
    assert("SMALL_FAULT"@[0] != "MAJOR_FAULT"@[0]);
    assert("INJECT_MAJOR_FAULT"@[7] != "INJECT_SMALL_FAULT"@[7]);
    assert(seq![COMMAND_ID_REQUEST_STATUS] =~= seq![0x02u8]);
    assert(seq![COMMAND_ID_CLEAR_FAULTS] =~= seq![0x03u8]);
}

/// The arguments the protocol accepts: telemetry on is 1, 0, ON, ENABLE,
/// ENABLED or TRUE... (off: 0, OFF, DISABLE, DISABLED, FALSE), and the
/// modes IDLE, NORMAL (or NOMINAL), SAFE and DIAGNOSTIC are 0 to 3.
pub proof fn lemma_argument_table()
    ensures
        telemetry_code("ON"@) == Some(0x01u8),
        telemetry_code("1"@) == Some(0x01u8),
        telemetry_code("ENABLE"@) == Some(0x01u8),
        telemetry_code("ENABLED"@) == Some(0x01u8),
        telemetry_code("TRUE"@) == Some(0x01u8),
        telemetry_code("OFF"@) == Some(0x00u8),
        telemetry_code("0"@) == Some(0x00u8),
        telemetry_code("DISABLE"@) == Some(0x00u8),
        telemetry_code("DISABLED"@) == Some(0x00u8),
        telemetry_code("FALSE"@) == Some(0x00u8),
        mode_code("IDLE"@) == Some(0x00u8),
        mode_code("NORMAL"@) == Some(0x01u8),
        mode_code("NOMINAL"@) == Some(0x01u8),
        mode_code("SAFE"@) == Some(0x02u8),
        mode_code("DIAGNOSTIC"@) == Some(0x03u8),
{
    reveal_strlit("ON");
    assert("ON"@.len() == 2);
    reveal_strlit("1");
    assert("1"@.len() == 1);
    reveal_strlit("ENABLE");
    assert("ENABLE"@.len() == 6);
    reveal_strlit("ENABLED");
    assert("ENABLED"@.len() == 7);
    reveal_strlit("TRUE");
    assert("TRUE"@.len() == 4);
    reveal_strlit("OFF");
    assert("OFF"@.len() == 3);
    reveal_strlit("0");
    assert("0"@.len() == 1);
    reveal_strlit("DISABLE");
    assert("DISABLE"@.len() == 7);
    reveal_strlit("DISABLED");
    assert("DISABLED"@.len() == 8);
    reveal_strlit("FALSE");
    assert("FALSE"@.len() == 5);
    reveal_strlit("IDLE");
    assert("IDLE"@.len() == 4);
    reveal_strlit("NORMAL");
    assert("NORMAL"@.len() == 6);
    reveal_strlit("NOMINAL");
    assert("NOMINAL"@.len() == 7);
    reveal_strlit("SAFE");
    assert("SAFE"@.len() == 4);
    reveal_strlit("DIAGNOSTIC");
    assert("DIAGNOSTIC"@.len() == 10);
    assert("1"@[0] != "0"@[0]);
    assert("SAFE"@[0] != "IDLE"@[0]);
    assert("ENABLED"@[0] != "DISABLE"@[0]);
}

} // verus!
