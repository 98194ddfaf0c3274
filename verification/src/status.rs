//! The status of a recording, and the messages that carry it to the clients of the socket.

use vstd::prelude::*;
#[allow(unused_imports)]
use vstd::utf8::{
    decode_utf8, encode_scalar, encode_utf8, has_width_1_encoding, last_continuation_byte,
    leading_byte_width_1,
    leading_byte_width_2, leading_byte_width_3, leading_byte_width_4, second_last_continuation_byte,
    third_last_continuation_byte,
};

use crate::error::Error;
use crate::json::write_json_object;
#[allow(unused_imports)]
use crate::json::{field_views, json_object, law_objects_have_no_line_break};
#[allow(unused_imports)]
use crate::metadata::{json_object_of_strings, pairs_map};
#[allow(unused_imports)]
use crate::text::opt_text;

verus! {

/// How far a recording has come.
#[derive(Clone, Copy, Debug, PartialEq, Eq, Structural)]
pub enum RecordingState {
    Recording,
    Processing,
    Complete,
    Error,
}

/// The name of a state in messages.
pub open spec fn state_name(state: RecordingState) -> Seq<char> {
    match state {
        RecordingState::Recording => "recording"@,
        RecordingState::Processing => "processing"@,
        RecordingState::Complete => "complete"@,
        RecordingState::Error => "error"@,
    }
}

impl RecordingState {
    /// The name of the state in messages.
    pub fn name(self) -> (name: &'static str)
        ensures
            name@ == state_name(self),
    {
        match self {
            RecordingState::Recording => "recording",
            RecordingState::Processing => "processing",
            RecordingState::Complete => "complete",
            RecordingState::Error => "error",
        }
    }
}

/// The status of a recording.
#[derive(Debug)]
pub struct RecordingStatus {
    pub state: RecordingState,
    pub started_at: String,
    pub message: Option<String>,
}

/// The status of a recording, as mathematical values.
pub struct RecordingStatusView {
    pub state: RecordingState,
    pub started_at: Seq<char>,
    pub message: Option<Seq<char>>,
}

impl View for RecordingStatus {
    type V = RecordingStatusView;

    open spec fn view(&self) -> RecordingStatusView {
        RecordingStatusView {
            state: self.state,
            started_at: self.started_at@,
            message: opt_text(self.message),
        }
    }
}

/// The fields of a status message.
pub open spec fn status_fields(status: RecordingStatusView) -> Seq<(Seq<char>, Seq<char>)> {
    let always = seq![
        ("type"@, "status"@),
        ("state"@, state_name(status.state)),
        ("startedAt"@, status.started_at),
    ];
    match status.message {
        Some(message) => always.push(("message"@, message)),
        None => always,
    }
}

/// The fields of an error message.
pub open spec fn error_fields(message: Seq<char>) -> Seq<(Seq<char>, Seq<char>)> {
    seq![("type"@, "error"@), ("message"@, message)]
}

fn field(name: &str, value: &str) -> (f: (String, String))
    ensures
        f.0@ == name@,
        f.1@ == value@,
{
    (name.to_owned(), value.to_owned())
}

/// The fields of a status message.
pub fn status_message(status: &RecordingStatus) -> (fields: Vec<(String, String)>)
    ensures
        field_views(fields@) == status_fields(status@),
{
    let mut fields: Vec<(String, String)> = Vec::new();
    fields.push(field("type", "status"));
    fields.push(field("state", status.state.name()));
    fields.push(field("startedAt", status.started_at.as_str()));
    if let Some(message) = &status.message {
        fields.push(field("message", message.as_str()));
    }
    assert(field_views(fields@) == status_fields(status@));
    fields
}

/// The fields of an error message.
pub fn error_message(message: &str) -> (fields: Vec<(String, String)>)
    ensures
        field_views(fields@) == error_fields(message@),
{
    let mut fields: Vec<(String, String)> = Vec::new();
    fields.push(field("type", "error"));
    fields.push(field("message", message));
    assert(field_views(fields@) == error_fields(message@));
    fields
}

/// The map that a list of fields spells out; of two fields with one name, the later one counts.
pub open spec fn fields_map(fields: Seq<(Seq<char>, Seq<char>)>) -> Map<Seq<char>, Seq<char>>
    decreases fields.len(),
{
    if fields.len() == 0 {
        Map::empty()
    } else {
        fields_map(fields.drop_last()).insert(fields.last().0, fields.last().1)
    }
}

proof fn lemma_fields_map(fields: Seq<(String, String)>)
    ensures
        pairs_map(fields) == fields_map(field_views(fields)),
    decreases fields.len(),
{
    if fields.len() > 0 {
        lemma_fields_map(fields.drop_last());
        assert(field_views(fields).drop_last() == field_views(fields.drop_last()));
    }
}

/// The byte that ends a message.
pub open spec fn line_feed() -> u8 {
    10
}

/// The bytes of a message: its text, and a line feed.
pub open spec fn message_line(text: Seq<char>) -> Seq<u8> {
    encode_utf8(text).push(line_feed())
}

/// Whether the bytes are one line: a line feed ends them, and there is no other.
pub open spec fn one_line(bytes: Seq<u8>) -> bool {
    &&& bytes.len() > 0
    &&& bytes.last() == line_feed()
    &&& !bytes.drop_last().contains(line_feed())
}

/// No character but the line feed has the byte of a line feed in its encoding.
proof fn lemma_char_without_line_feed(c: char)
    requires
        c != '\n',
    ensures
        forall|i: int|
            0 <= i < encode_scalar(c as u32).len() ==> #[trigger] encode_scalar(c as u32)[i] != 10,
{
    let u = c as u32;
    assert(u != 10);
    assert(has_width_1_encoding(u) && u != 10 ==> leading_byte_width_1(u) != 10) by (bit_vector);
    assert(leading_byte_width_2(u) != 10) by (bit_vector);
    assert(leading_byte_width_3(u) != 10) by (bit_vector);
    assert(leading_byte_width_4(u) != 10) by (bit_vector);
    assert(last_continuation_byte(u) != 10) by (bit_vector);
    assert(second_last_continuation_byte(u) != 10) by (bit_vector);
    assert(third_last_continuation_byte(u) != 10) by (bit_vector);
}

proof fn lemma_text_without_line_feed(text: Seq<char>)
    requires
        !text.contains('\n'),
    ensures
        !encode_utf8(text).contains(line_feed()),
    decreases text.len(),
{
    if text.len() > 0 {
        let rest = text.drop_first();
        assert(text[0] != '\n');
        assert(!rest.contains('\n')) by {
            if rest.contains('\n') {
                let i = choose|i: int| 0 <= i < rest.len() && rest[i] == '\n';
                assert(text[i + 1] == '\n');
            }
        }
        lemma_text_without_line_feed(rest);
        lemma_char_without_line_feed(text[0]);
        let first = encode_scalar(text[0] as u32);
        let more = encode_utf8(rest);
        if encode_utf8(text).contains(line_feed()) {
            let i = choose|i: int|
                0 <= i < encode_utf8(text).len() && encode_utf8(text)[i] == line_feed();
            if i < first.len() {
                assert(first[i] == line_feed());
            } else {
                assert(more[i - first.len()] == line_feed());
            }
        }
    }
}

/// A text without line breaks makes a message of one line, so a reader of lines finds the messages
/// one by one.
pub proof fn law_messages_are_lines(text: Seq<char>)
    requires
        !text.contains('\n'),
    ensures
        one_line(message_line(text)),
{
    lemma_text_without_line_feed(text);
    assert(message_line(text).drop_last() == encode_utf8(text));
}

/// The bytes of a message: its text, and a line feed.
pub fn frame_message(text: &str) -> (bytes: Vec<u8>)
    ensures
        bytes@ == message_line(text@),
{
    let mut bytes: Vec<u8> = text.as_bytes_vec();
    bytes.push(10);
    bytes
}

/// Whether the bytes are the message with the given fields: one line of JSON from which the fields
/// can be read back.
pub open spec fn carries(bytes: Seq<u8>, fields: Seq<(Seq<char>, Seq<char>)>) -> bool {
    &&& bytes == message_line(json_object(fields))
    &&& one_line(bytes)
    &&& json_object_of_strings(json_object(fields)) == Ok::<Map<Seq<char>, Seq<char>>, Seq<char>>(
        fields_map(fields),
    )
}

/// Puts fields in one line of JSON; it can always be done.
pub fn write_json_line(fields: &Vec<(String, String)>) -> (r: Result<Vec<u8>, Error>)
    ensures
        r is Ok,
        carries(r->Ok_0@, field_views(fields@)),
{
    match write_json_object(fields) {
        Ok(text) => {
            proof {
                law_objects_have_no_line_break(field_views(fields@));
                law_messages_are_lines(text@);
                lemma_fields_map(fields@);
            }
            Ok(frame_message(text.as_str()))
        },
        Err(reason) => Err(Error::MessageNotEncoded { reason }),
    }
}

/// The line that tells a client the status.
pub fn write_status_message(status: &RecordingStatus) -> (r: Result<Vec<u8>, Error>)
    ensures
        r is Ok,
        carries(r->Ok_0@, status_fields(status@)),
{
    let fields: Vec<(String, String)> = status_message(status);
    write_json_line(&fields)
}

/// The line that tells a client of an error.
pub fn write_error_message(message: &str) -> (r: Result<Vec<u8>, Error>)
    ensures
        r is Ok,
        carries(r->Ok_0@, error_fields(message@)),
{
    let fields: Vec<(String, String)> = error_message(message);
    write_json_line(&fields)
}

/// What a client reads in a status message: the state, when the recording began, and the remark
/// if there is one.
pub proof fn law_status_reads_back(status: RecordingStatusView)
    ensures
        ({
            let read = fields_map(status_fields(status));
            &&& read.dom().contains("type"@) && read["type"@] == "status"@
            &&& read.dom().contains("state"@) && read["state"@] == state_name(status.state)
            &&& read.dom().contains("startedAt"@) && read["startedAt"@] == status.started_at
            &&& read.dom().contains("message"@) == (status.message is Some)
            &&& status.message is Some ==> read["message"@] == status.message->0
        }),
{
    reveal_strlit("type");
    reveal_strlit("state");
    reveal_strlit("startedAt");
    reveal_strlit("message");
    assert("type"@.len() == 4 && "state"@.len() == 5 && "startedAt"@.len() == 9 && "message"@.len()
        == 7);
    reveal_with_fuel(fields_map, 5);
    let always = seq![
        ("type"@, "status"@),
        ("state"@, state_name(status.state)),
        ("startedAt"@, status.started_at),
    ];
    assert(always.drop_last() == seq![
        ("type"@, "status"@),
        ("state"@, state_name(status.state)),
    ]);
    assert(always.drop_last().drop_last() == seq![("type"@, "status"@)]);
    assert(always.drop_last().drop_last().drop_last() == Seq::<(Seq<char>, Seq<char>)>::empty());
    if status.message is Some {
        assert(status_fields(status).drop_last() == always);
    }
}

/// What a client reads in an error message: that it is one, and the whole of what it says.
pub proof fn law_error_reads_back(message: Seq<char>)
    ensures
        fields_map(error_fields(message)) == map!["type"@ => "error"@, "message"@ => message],
{
    reveal_with_fuel(fields_map, 3);
    let fields = error_fields(message);
    assert(fields.drop_last() == seq![("type"@, "error"@)]);
    assert(fields.drop_last().drop_last() == Seq::<(Seq<char>, Seq<char>)>::empty());
}

/// A message is the encoding of its text and one line feed after it, so two messages are the same
/// only if their texts have the same encoding.
pub proof fn law_messages_end_with_a_line_feed(text: Seq<char>, other: Seq<char>)
    ensures
        message_line(text).len() == encode_utf8(text).len() + 1,
        message_line(text).last() == 10,
        message_line(text).drop_last() == encode_utf8(text),
        message_line(text) == message_line(other) ==> text == other,
{
    broadcast use vstd::utf8::encode_utf8_decode_utf8;

    assert(message_line(text).drop_last() == encode_utf8(text));
    assert(message_line(other).drop_last() == encode_utf8(other));
    if message_line(text) == message_line(other) {
        assert(decode_utf8(encode_utf8(text)) == decode_utf8(encode_utf8(other)));
    }
}

/// The states have names of their own.
pub proof fn law_states_have_names_of_their_own(a: RecordingState, b: RecordingState)
    requires
        state_name(a) == state_name(b),
    ensures
        a == b,
{
    reveal_strlit("recording");
    reveal_strlit("processing");
    reveal_strlit("complete");
    reveal_strlit("error");
    assert("recording"@.len() == 9 && "processing"@.len() == 10 && "complete"@.len() == 8
        && "error"@.len() == 5);
}

/// A status message has these fields, in this order, and no others: that it is one, the state, the
/// beginning, and the remark if there is one.
pub proof fn law_fields_of_a_status(status: RecordingStatusView)
    ensures
        ({
            let fields = status_fields(status);
            &&& fields.len() == if status.message is Some {
                4int
            } else {
                3int
            }
            &&& fields[0] == ("type"@, "status"@)
            &&& fields[1] == ("state"@, state_name(status.state))
            &&& fields[2] == ("startedAt"@, status.started_at)
            &&& status.message is Some ==> fields[3] == ("message"@, status.message->0)
        }),
        ({
            let fields = error_fields(status.started_at);
            &&& fields.len() == 2
            &&& fields[0] == ("type"@, "error"@)
            &&& fields[1] == ("message"@, status.started_at)
        }),
{
}

/// The view of a status is what it holds.
pub proof fn law_view_of_a_status(status: RecordingStatus)
    ensures
        status@.state == status.state,
        status@.started_at == status.started_at@,
        status@.message is Some <==> status.message is Some,
        status.message is Some ==> status@.message->0 == status.message->0@,
{
}

} // verus!
