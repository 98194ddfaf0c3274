//! The control socket: who may serve it, and how its clients are served.

use vstd::prelude::*;

use crate::error::Error;
#[allow(unused_imports)]
use crate::error::ErrorView;
#[allow(unused_imports)]
use crate::json::{escaped_text, field_views, fields_text, json_object};
use crate::paths::NativePath;
use crate::status::{write_json_line, RecordingState};
#[allow(unused_imports)]
use crate::status::{carries, fields_map};
use crate::text::{same_string, trim_string};
#[allow(unused_imports)]
use crate::text::{lossy_text, trimmed};

verus! {

/// Why reaching for a socket failed.
#[derive(Clone, Copy, Debug, PartialEq, Eq, Structural)]
pub enum SocketFault {
    /// Nobody serves the socket.
    Refused,
    /// There is no such file.
    NotFound,
    /// Anything else.
    Other,
}

/// A failure to reach a socket, and the system's words for it.
#[derive(Debug)]
pub struct SocketFailure {
    pub fault: SocketFault,
    pub reason: String,
}

/// What to do before a socket is served.
#[derive(Clone, Copy, Debug, PartialEq, Eq, Structural)]
pub enum SocketPlan {
    /// Nothing stands in the way.
    Proceed,
    /// A file that nobody serves is to be removed first.
    RemoveStale,
}

/// Makes sure that no other recorder is alive. `connection` is what came of connecting to the
/// socket, where its file is there: a recorder that answers is alive, and a file that nobody serves
/// is stale.
pub fn ensure_singleton_socket(
    path: &NativePath,
    connection: Option<Result<(), SocketFailure>>,
) -> (r: Result<SocketPlan, Error>)
    ensures
        match connection {
            None => r == Ok::<SocketPlan, Error>(SocketPlan::Proceed),
            Some(Ok(())) => r is Err && r->Err_0@ == (ErrorView::AlreadyRecording {
                path: lossy_text(path@),
            }),
            Some(Err(failure)) => {
                if failure.fault == SocketFault::Other {
                    r is Err && r->Err_0@ == (ErrorView::SocketCheckFailed {
                        path: lossy_text(path@),
                        reason: failure.reason@,
                    })
                } else {
                    r == Ok::<SocketPlan, Error>(SocketPlan::RemoveStale)
                }
            },
        },
{
    match connection {
        None => Ok(SocketPlan::Proceed),
        Some(Ok(())) => Err(Error::AlreadyRecording { path: path.display() }),
        Some(Err(failure)) => match failure.fault {
            SocketFault::Refused => Ok(SocketPlan::RemoveStale),
            SocketFault::NotFound => Ok(SocketPlan::RemoveStale),
            SocketFault::Other => Err(
                Error::SocketCheckFailed { path: path.display(), reason: failure.reason },
            ),
        },
    }
}

/// Whether recording may go on once the stale file was to be removed: only where that was done.
pub fn stale_socket_removed(path: &NativePath, removal: Result<(), SocketFailure>) -> (r: Result<
    (),
    Error,
>)
    ensures
        match (removal, r) {
            (Ok(()), Ok(())) => true,
            (Err(failure), Err(e)) => e@ == (ErrorView::StaleSocketNotRemoved {
                path: lossy_text(path@),
                reason: failure.reason@,
            }),
            _ => false,
        },
{
    match removal {
        Ok(()) => Ok(()),
        Err(failure) => Err(
            Error::StaleSocketNotRemoved { path: path.display(), reason: failure.reason },
        ),
    }
}

/// Whether the place of the socket is free once the file there was to be removed: it is also free
/// where there was none.
pub fn clear_socket(path: &NativePath, removal: Result<(), SocketFailure>) -> (r: Result<
    (),
    Error,
>)
    ensures
        match (removal, r) {
            (Ok(()), Ok(())) => true,
            (Err(failure), Ok(())) => failure.fault == SocketFault::NotFound,
            (Err(failure), Err(e)) => failure.fault != SocketFault::NotFound && e@ == (
            ErrorView::StaleSocketNotRemoved { path: lossy_text(path@), reason: failure.reason@ }),
            _ => false,
        },
{
    match removal {
        Ok(()) => Ok(()),
        Err(failure) => {
            if failure.fault == SocketFault::NotFound {
                Ok(())
            } else {
                Err(Error::StaleSocketNotRemoved { path: path.display(), reason: failure.reason })
            }
        },
    }
}

/// What a client's command brings about.
#[derive(Debug)]
pub enum SocketAction {
    /// The recording is to be stopped.
    Stop,
    /// The client is told the status.
    ReplyStatus,
    /// The client is told of an error.
    ReplyError { message: String },
}

/// What a client's command brings about, as mathematical values.
pub enum SocketActionView {
    Stop,
    ReplyStatus,
    ReplyError { message: Seq<char> },
}

impl View for SocketAction {
    type V = SocketActionView;

    open spec fn view(&self) -> SocketActionView {
        match *self {
            SocketAction::Stop => SocketActionView::Stop,
            SocketAction::ReplyStatus => SocketActionView::ReplyStatus,
            SocketAction::ReplyError { message } => SocketActionView::ReplyError {
                message: message@,
            },
        }
    }
}

/// The type of a command, or why the command could not be read.
pub open spec fn command_view(command: Result<String, String>) -> Result<Seq<char>, Seq<char>> {
    match command {
        Ok(command_type) => Ok(command_type@),
        Err(reason) => Err(reason@),
    }
}

/// What a command brings about: `stop` stops what is being recorded and is refused at any other
/// time, `status` is answered at any time, and anything else is refused.
pub open spec fn command_effect(
    command: Result<Seq<char>, Seq<char>>,
    state: RecordingState,
) -> SocketActionView {
    match command {
        Err(reason) => SocketActionView::ReplyError {
            message: "invalid JSON command: "@ + reason,
        },
        Ok(command_type) => {
            if command_type == "stop"@ {
                if state == RecordingState::Recording {
                    SocketActionView::Stop
                } else {
                    SocketActionView::ReplyError { message: "cannot stop unless recording"@ }
                }
            } else if command_type == "status"@ {
                SocketActionView::ReplyStatus
            } else {
                SocketActionView::ReplyError {
                    message: "unknown command type: "@ + command_type,
                }
            }
        },
    }
}

/// The text of a command: the line without surrounding white space.
pub fn command_text(line: &str) -> (text: String)
    ensures
        text@ == trimmed(line@),
{
    trim_string(line)
}

/// Decides what a client's command brings about. `command` is the type of the command, or why the
/// command could not be read; `state` is that of the recording.
pub fn handle_socket_command(command: Result<String, String>, state: RecordingState) -> (action:
    SocketAction)
    ensures
        action@ == command_effect(command_view(command), state),
{
    let command_type: String = match command {
        Ok(command_type) => command_type,
        Err(reason) => {
            let mut message: String = "invalid JSON command: ".to_owned();
            message.append(reason.as_str());
            return SocketAction::ReplyError { message };
        },
    };
    if same_string(command_type.as_str(), "stop") {
        if state == RecordingState::Recording {
            SocketAction::Stop
        } else {
            SocketAction::ReplyError { message: "cannot stop unless recording".to_owned() }
        }
    } else if same_string(command_type.as_str(), "status") {
        SocketAction::ReplyStatus
    } else {
        let mut message: String = "unknown command type: ".to_owned();
        message.append(command_type.as_str());
        SocketAction::ReplyError { message }
    }
}

/// The fields of the command that stops a recording.
pub open spec fn stop_fields() -> Seq<(Seq<char>, Seq<char>)> {
    seq![("type"@, "stop"@)]
}

/// The line with which `mnemo stop` ends a recording.
pub fn stop_line() -> (r: Result<Vec<u8>, Error>)
    ensures
        r is Ok,
        carries(r->Ok_0@, stop_fields()),
{
    let mut fields: Vec<(String, String)> = Vec::new();
    fields.push(("type".to_owned(), "stop".to_owned()));
    assert(field_views(fields@) == stop_fields());
    write_json_line(&fields)
}

/// The line of `mnemo stop` is the object with the type `stop`, and a command of that type stops
/// what is being recorded.
pub proof fn law_stop_line_stops()
    ensures
        json_object(stop_fields()) == "{\"type\":\"stop\"}"@,
        fields_map(stop_fields()) == map!["type"@ => "stop"@],
        command_effect(Ok(fields_map(stop_fields())["type"@]), RecordingState::Recording) is Stop,
{
    reveal_strlit("type");
    reveal_strlit("stop");
    reveal_strlit("{\"type\":\"stop\"}");
    reveal_with_fuel(escaped_text, 5);
    reveal_with_fuel(fields_text, 2);
    reveal_with_fuel(fields_map, 2);
    let name = "type"@;
    let stop = "stop"@;
    assert(name == seq!['t', 'y', 'p', 'e']);
    assert(stop == seq!['s', 't', 'o', 'p']);
    assert(name.drop_last() == seq!['t', 'y', 'p']);
    assert(name.drop_last().drop_last() == seq!['t', 'y']);
    assert(name.drop_last().drop_last().drop_last() == seq!['t']);
    assert(stop.drop_last() == seq!['s', 't', 'o']);
    assert(stop.drop_last().drop_last() == seq!['s', 't']);
    assert(stop.drop_last().drop_last().drop_last() == seq!['s']);
    assert(escaped_text(name) == name);
    assert(escaped_text(stop) == stop);
    assert(stop_fields().drop_last() == Seq::<(Seq<char>, Seq<char>)>::empty());
    assert(json_object(stop_fields()) == "{\"type\":\"stop\"}"@);
}

/// A command stops a recording only while it is being recorded, and only if it is `stop`.
pub proof fn law_only_stop_stops(command: Result<Seq<char>, Seq<char>>, state: RecordingState)
    ensures
        command_effect(command, state) is Stop <==> command == Ok::<Seq<char>, Seq<char>>("stop"@)
            && state == RecordingState::Recording,
{
}

/// The client is told the status if and only if it asks for it, and told of an error if and only if
/// its command neither asks for the status nor stops the recording.
pub proof fn law_every_other_command_is_answered(
    command: Result<Seq<char>, Seq<char>>,
    state: RecordingState,
)
    ensures
        command_effect(command, state) is ReplyStatus <==> command == Ok::<Seq<char>, Seq<char>>(
            "status"@,
        ),
        command_effect(command, state) is ReplyError <==> command != Ok::<Seq<char>, Seq<char>>(
            "status"@,
        ) && !(command == Ok::<Seq<char>, Seq<char>>("stop"@) && state
            == RecordingState::Recording),
{
    reveal_strlit("stop");
    reveal_strlit("status");
    assert("stop"@.len() == 4 && "status"@.len() == 6);
}

/// What happens on a client's connection.
#[derive(Debug)]
pub enum ClientEvent {
    /// The status has changed.
    StatusChanged,
    /// There will be no more statuses.
    StatusGone,
    /// Reading from the client failed.
    ReadFailed,
    /// The client sends nothing more.
    EndOfInput,
    /// The client sent a line: its command type, or why it could not be read.
    Line { command: Result<String, String> },
}

/// What happens on a client's connection, as mathematical values.
pub enum ClientEventView {
    StatusChanged,
    StatusGone,
    ReadFailed,
    EndOfInput,
    Line { command: Result<Seq<char>, Seq<char>> },
}

impl View for ClientEvent {
    type V = ClientEventView;

    open spec fn view(&self) -> ClientEventView {
        match *self {
            ClientEvent::StatusChanged => ClientEventView::StatusChanged,
            ClientEvent::StatusGone => ClientEventView::StatusGone,
            ClientEvent::ReadFailed => ClientEventView::ReadFailed,
            ClientEvent::EndOfInput => ClientEventView::EndOfInput,
            ClientEvent::Line { command } => ClientEventView::Line {
                command: command_view(command),
            },
        }
    }
}

impl ClientEventView {
    /// Whether the event comes from reading.
    pub open spec fn from_reading(self) -> bool {
        self is ReadFailed || self is EndOfInput || self is Line
    }
}

/// What to do on a client's connection.
#[derive(Debug)]
pub enum ClientAction {
    /// Nothing.
    Wait,
    /// Serve the client; where that fails, the connection ends.
    Serve { action: SocketAction },
    /// Tell the client of an error; where that fails, the connection goes on.
    Mention { message: String },
    /// End the connection.
    Close,
}

/// What to do on a client's connection, as mathematical values.
pub enum ClientActionView {
    Wait,
    Serve { action: SocketActionView },
    Mention { message: Seq<char> },
    Close,
}

impl View for ClientAction {
    type V = ClientActionView;

    open spec fn view(&self) -> ClientActionView {
        match *self {
            ClientAction::Wait => ClientActionView::Wait,
            ClientAction::Serve { action } => ClientActionView::Serve { action: action@ },
            ClientAction::Mention { message } => ClientActionView::Mention { message: message@ },
            ClientAction::Close => ClientActionView::Close,
        }
    }
}

/// A client's connection.
#[derive(Debug)]
pub struct Client {
    /// Whether nothing more is read from the client.
    pub read_closed: bool,
}

/// What an event on a connection brings about.
pub open spec fn client_effect(event: ClientEventView, state: RecordingState) -> ClientActionView {
    match event {
        ClientEventView::StatusChanged => ClientActionView::Serve {
            action: SocketActionView::ReplyStatus,
        },
        ClientEventView::StatusGone => ClientActionView::Close,
        ClientEventView::ReadFailed => ClientActionView::Mention {
            message: "failed to read command"@,
        },
        ClientEventView::EndOfInput => ClientActionView::Wait,
        ClientEventView::Line { command } => ClientActionView::Serve {
            action: command_effect(command, state),
        },
    }
}

/// Whether nothing more is read from a client after an event.
pub open spec fn closed_after(read_closed: bool, event: ClientEventView) -> bool {
    read_closed || event is ReadFailed || event is EndOfInput
}

impl Client {
    /// A new connection; the client is told the status at once.
    pub fn accept() -> (r: (Client, ClientAction))
        ensures
            !r.0.read_closed,
            r.1@ == (ClientActionView::Serve { action: SocketActionView::ReplyStatus }),
    {
        (Client { read_closed: false }, ClientAction::Serve { action: SocketAction::ReplyStatus })
    }

    /// Decides what an event on the connection brings about; `state` is that of the recording.
    pub fn handle(&mut self, event: ClientEvent, state: RecordingState) -> (action: ClientAction)
        requires
            old(self).read_closed ==> !event@.from_reading(),
        ensures
            action@ == client_effect(event@, state),
            final(self).read_closed == closed_after(old(self).read_closed, event@),
    {
        match event {
            ClientEvent::StatusChanged => ClientAction::Serve { action: SocketAction::ReplyStatus },
            ClientEvent::StatusGone => ClientAction::Close,
            ClientEvent::ReadFailed => {
                self.read_closed = true;
                ClientAction::Mention { message: "failed to read command".to_owned() }
            },
            ClientEvent::EndOfInput => {
                self.read_closed = true;
                ClientAction::Wait
            },
            ClientEvent::Line { command } => ClientAction::Serve {
                action: handle_socket_command(command, state),
            },
        }
    }
}

/// A client that sends nothing more still hears of every change of the status: nothing but the end
/// of the statuses closes the connection.
pub proof fn law_silent_clients_stay_informed(
    read_closed: bool,
    event: ClientEventView,
    state: RecordingState,
)
    ensures
        read_closed ==> closed_after(read_closed, event),
        client_effect(event, state) is Close <==> event is StatusGone,
        client_effect(ClientEventView::StatusChanged, state) == (ClientActionView::Serve {
            action: SocketActionView::ReplyStatus,
        }),
{
}

/// What a client is told of a command that is refused: why it could not be read, or that nothing is
/// being recorded, or the type that is not known, whole.
pub proof fn law_refusals_say_why(reason: Seq<char>, command_type: Seq<char>, state: RecordingState)
    ensures
        command_effect(Err(reason), state) == (SocketActionView::ReplyError {
            message: "invalid JSON command: "@ + reason,
        }),
        state != RecordingState::Recording ==> command_effect(Ok("stop"@), state)
            == (SocketActionView::ReplyError { message: "cannot stop unless recording"@ }),
        command_type != "stop"@ && command_type != "status"@ ==> command_effect(
            Ok(command_type),
            state,
        ) == (SocketActionView::ReplyError { message: "unknown command type: "@ + command_type }),
{
}

/// What each event on a connection brings about: a change of the status is told, the end of the
/// statuses closes the connection, a failed read is mentioned, the end of the input changes
/// nothing, and a line is served as the command that it is. Reading ends with a failed read or the
/// end of the input, and with nothing else.
pub proof fn law_what_events_bring_about(
    command: Result<Seq<char>, Seq<char>>,
    state: RecordingState,
    read_closed: bool,
)
    ensures
        client_effect(ClientEventView::StatusChanged, state) == (ClientActionView::Serve {
            action: SocketActionView::ReplyStatus,
        }),
        client_effect(ClientEventView::StatusGone, state) == ClientActionView::Close,
        client_effect(ClientEventView::ReadFailed, state) == (ClientActionView::Mention {
            message: "failed to read command"@,
        }),
        client_effect(ClientEventView::EndOfInput, state) == ClientActionView::Wait,
        client_effect(ClientEventView::Line { command }, state) == (ClientActionView::Serve {
            action: command_effect(command, state),
        }),
        closed_after(read_closed, ClientEventView::ReadFailed),
        closed_after(read_closed, ClientEventView::EndOfInput),
        closed_after(read_closed, ClientEventView::StatusChanged) == read_closed,
        closed_after(read_closed, ClientEventView::StatusGone) == read_closed,
        closed_after(read_closed, ClientEventView::Line { command }) == read_closed,
{
}

/// The view of a command is its type, or why it could not be read.
pub proof fn law_view_of_a_command(command: Result<String, String>)
    ensures
        command_view(command) is Ok <==> command is Ok,
        command is Ok ==> command_view(command)->Ok_0 == command->Ok_0@,
        command is Err ==> command_view(command)->Err_0 == command->Err_0@,
{
}

/// The views of actions are what they carry.
pub proof fn law_views_of_actions(action: SocketAction, message: String)
    ensures
        action is Stop <==> action@ is Stop,
        action is ReplyStatus <==> action@ is ReplyStatus,
        (SocketAction::ReplyError { message })@ == (SocketActionView::ReplyError {
            message: message@,
        }),
        (ClientAction::Mention { message })@ == (ClientActionView::Mention { message: message@ }),
        (ClientAction::Serve { action })@ == (ClientActionView::Serve { action: action@ }),
        ClientAction::Wait@ == ClientActionView::Wait,
        ClientAction::Close@ == ClientActionView::Close,
{
}

/// The views of events are what they carry.
pub proof fn law_views_of_events(command: Result<String, String>)
    ensures
        ClientEvent::StatusChanged@ == ClientEventView::StatusChanged,
        ClientEvent::StatusGone@ == ClientEventView::StatusGone,
        ClientEvent::ReadFailed@ == ClientEventView::ReadFailed,
        ClientEvent::EndOfInput@ == ClientEventView::EndOfInput,
        (ClientEvent::Line { command })@ == (ClientEventView::Line {
            command: command_view(command),
        }),
{
}

} // verus!
