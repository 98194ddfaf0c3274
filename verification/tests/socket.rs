use std::collections::BTreeMap;

use mnemo::paths::NativePath;
use mnemo::socket::{
    clear_socket, command_text, ensure_singleton_socket, handle_socket_command,
    stale_socket_removed, stop_line, Client, ClientAction, ClientEvent, SocketAction,
    SocketFailure, SocketFault, SocketPlan,
};
use mnemo::status::{
    error_message, frame_message, status_message, write_error_message, write_json_line,
    write_status_message, RecordingState, RecordingStatus,
};

fn path() -> NativePath {
    NativePath { bytes: b"/run/mnemo.sock".to_vec() }
}

fn failure(fault: SocketFault) -> SocketFailure {
    SocketFailure { fault, reason: "why".to_string() }
}

fn command(name: &str) -> Result<String, String> {
    Ok(name.to_string())
}

fn message_of(action: SocketAction) -> String {
    match action {
        SocketAction::ReplyError { message } => message,
        other => panic!("no error: {other:?}"),
    }
}

fn status(state: RecordingState, message: Option<&str>) -> RecordingStatus {
    RecordingStatus {
        state,
        started_at: "2026-05-09T12:00:00Z".to_string(),
        message: message.map(str::to_string),
    }
}

#[test]
fn only_one_recorder_may_be_alive() {
    assert_eq!(ensure_singleton_socket(&path(), None).unwrap(), SocketPlan::Proceed);
    let error = ensure_singleton_socket(&path(), Some(Ok(()))).unwrap_err();
    assert_eq!(error.message(), "mnemo is already recording via /run/mnemo.sock");
    assert_eq!(error.cause(), None);
    for fault in [SocketFault::Refused, SocketFault::NotFound] {
        let plan = ensure_singleton_socket(&path(), Some(Err(failure(fault)))).unwrap();
        assert_eq!(plan, SocketPlan::RemoveStale);
    }
    let error =
        ensure_singleton_socket(&path(), Some(Err(failure(SocketFault::Other)))).unwrap_err();
    assert_eq!(error.message(), "failed to check socket /run/mnemo.sock");
    assert_eq!(error.cause(), Some("why".to_string()));
}

#[test]
fn a_stale_socket_must_be_removed() {
    assert!(stale_socket_removed(&path(), Ok(())).is_ok());
    for fault in [SocketFault::NotFound, SocketFault::Other] {
        let error = stale_socket_removed(&path(), Err(failure(fault))).unwrap_err();
        assert_eq!(error.message(), "failed to remove stale socket /run/mnemo.sock");
        assert_eq!(error.cause(), Some("why".to_string()));
    }
}

#[test]
fn a_place_without_a_file_is_free() {
    assert!(clear_socket(&path(), Ok(())).is_ok());
    assert!(clear_socket(&path(), Err(failure(SocketFault::NotFound))).is_ok());
    for fault in [SocketFault::Refused, SocketFault::Other] {
        let error = clear_socket(&path(), Err(failure(fault))).unwrap_err();
        assert_eq!(error.message(), "failed to remove stale socket /run/mnemo.sock");
    }
}

#[test]
fn stop_stops_only_while_recording() {
    let action = handle_socket_command(command("stop"), RecordingState::Recording);
    assert!(matches!(action, SocketAction::Stop));
    for state in [
        RecordingState::Processing,
        RecordingState::Complete,
        RecordingState::Error,
    ] {
        let action = handle_socket_command(command("stop"), state);
        assert_eq!(message_of(action), "cannot stop unless recording");
    }
}

#[test]
fn every_other_command_is_answered() {
    for state in [RecordingState::Recording, RecordingState::Complete] {
        let action = handle_socket_command(command("status"), state);
        assert!(matches!(action, SocketAction::ReplyStatus));
        let action = handle_socket_command(command("pause"), state);
        assert_eq!(message_of(action), "unknown command type: pause");
        let action = handle_socket_command(command("Stop"), state);
        assert_eq!(message_of(action), "unknown command type: Stop");
        let action = handle_socket_command(Err("EOF".to_string()), state);
        assert_eq!(message_of(action), "invalid JSON command: EOF");
    }
}

#[test]
fn the_stop_line_holds_the_stop_command() {
    let line = String::from_utf8(stop_line().unwrap()).unwrap();
    assert_eq!(line, "{\"type\":\"stop\"}\n");
    let text = command_text(&line);
    let read: BTreeMap<String, String> = serde_json::from_str(&text).unwrap();
    assert_eq!(read.len(), 1);
    let action = handle_socket_command(command(&read["type"]), RecordingState::Recording);
    assert!(matches!(action, SocketAction::Stop));
    assert_eq!(command_text("\u{2003} x \r\n"), "x");
}

#[test]
fn clients_are_told_the_status_at_once() {
    let (client, action) = Client::accept();
    assert!(!client.read_closed);
    assert!(matches!(
        action,
        ClientAction::Serve { action: SocketAction::ReplyStatus }
    ));
}

#[test]
fn silent_clients_stay_informed() {
    let state = RecordingState::Recording;
    let (mut client, _) = Client::accept();
    let action = client.handle(ClientEvent::Line { command: command("stop") }, state);
    assert!(matches!(action, ClientAction::Serve { action: SocketAction::Stop }));
    assert!(!client.read_closed);
    assert!(matches!(client.handle(ClientEvent::EndOfInput, state), ClientAction::Wait));
    assert!(client.read_closed);
    let action = client.handle(ClientEvent::StatusChanged, state);
    assert!(matches!(
        action,
        ClientAction::Serve { action: SocketAction::ReplyStatus }
    ));
    assert!(client.read_closed);
    assert!(matches!(client.handle(ClientEvent::StatusGone, state), ClientAction::Close));
}

#[test]
fn a_failed_read_is_mentioned_and_ends_reading() {
    let (mut client, _) = Client::accept();
    match client.handle(ClientEvent::ReadFailed, RecordingState::Processing) {
        ClientAction::Mention { message } => assert_eq!(message, "failed to read command"),
        other => panic!("not mentioned: {other:?}"),
    }
    assert!(client.read_closed);
}

#[test]
fn status_messages_have_these_bytes() {
    assert_eq!(
        write_status_message(&status(RecordingState::Recording, None)).unwrap(),
        b"{\"type\":\"status\",\"state\":\"recording\",\"startedAt\":\"2026-05-09T12:00:00Z\"}\n"
    );
    assert_eq!(
        write_status_message(&status(RecordingState::Complete, Some("No \"speech\"\n"))).unwrap(),
        b"{\"type\":\"status\",\"state\":\"complete\",\"startedAt\":\"2026-05-09T12:00:00Z\",\"message\":\"No \\\"speech\\\"\\n\"}\n"
    );
    assert_eq!(
        write_error_message("cannot stop unless recording").unwrap(),
        b"{\"type\":\"error\",\"message\":\"cannot stop unless recording\"}\n"
    );
}

#[test]
fn messages_are_lines_that_read_back() {
    for message in ["plain", "two\nlines\r\n", "Grüße \u{2028} 🦀", "\u{0}\u{1f}\\\"/", ""] {
        for state in [RecordingState::Processing, RecordingState::Error] {
            let told = status(state, Some(message));
            let bytes = write_status_message(&told).unwrap();
            assert_eq!(bytes.iter().filter(|b| **b == b'\n').count(), 1);
            assert_eq!(bytes.last(), Some(&b'\n'));
            let read: BTreeMap<String, String> = serde_json::from_slice(&bytes).unwrap();
            assert_eq!(read["type"], "status");
            assert_eq!(read["state"], state.name());
            assert_eq!(read["startedAt"], told.started_at);
            assert_eq!(read["message"], message);
        }
        let bytes = write_error_message(message).unwrap();
        let read: BTreeMap<String, String> = serde_json::from_slice(&bytes).unwrap();
        assert_eq!(read["type"], "error");
        assert_eq!(read["message"], message);
        assert_eq!(read.len(), 2);
    }
}

#[test]
fn states_have_lower_case_names() {
    assert_eq!(RecordingState::Recording.name(), "recording");
    assert_eq!(RecordingState::Processing.name(), "processing");
    assert_eq!(RecordingState::Complete.name(), "complete");
    assert_eq!(RecordingState::Error.name(), "error");
}

#[test]
fn fields_stand_in_their_order() {
    let fields = status_message(&status(RecordingState::Error, Some("m")));
    let names: Vec<&str> = fields.iter().map(|f| f.0.as_str()).collect();
    assert_eq!(names, vec!["type", "state", "startedAt", "message"]);
    assert_eq!(status_message(&status(RecordingState::Error, None)).len(), 3);
    assert_eq!(error_message("m")[1], ("message".to_string(), "m".to_string()));
    let line = write_json_line(&vec![("b".to_string(), "1".to_string())]).unwrap();
    assert_eq!(line, b"{\"b\":\"1\"}\n");
    assert_eq!(frame_message("é"), "é\n".as_bytes());
}

#[test]
fn every_character_is_escaped_as_the_compact_form_has_it() {
    for n in 0..=0x2ffu32 {
        let c = char::from_u32(n).unwrap();
        let value = match c {
            '"' => "\\\"".to_string(),
            '\\' => "\\\\".to_string(),
            '\u{8}' => "\\b".to_string(),
            '\t' => "\\t".to_string(),
            '\n' => "\\n".to_string(),
            '\u{c}' => "\\f".to_string(),
            '\r' => "\\r".to_string(),
            c if c < ' ' => format!("\\u{:04x}", n),
            c => c.to_string(),
        };
        let fields = vec![(c.to_string(), "v".to_string()), ("k".to_string(), c.to_string())];
        let line = write_json_line(&fields).unwrap();
        let expected = format!("{{\"{value}\":\"v\",\"k\":\"{value}\"}}\n");
        assert_eq!(String::from_utf8(line).unwrap(), expected);
    }
    assert_eq!(write_json_line(&Vec::new()).unwrap(), b"{}\n");
}
