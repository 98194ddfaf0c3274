//! The course of a recording: what is needed to begin, and what follows each step.

use vstd::prelude::*;

use crate::config::{resolve_api_key, Config};
#[allow(unused_imports)]
use crate::config::{elevenlabs_key, key_takes_precedence, law_keys_of_a_run};
use crate::error::{missing_api_key_error, Error};
#[allow(unused_imports)]
use crate::error::ErrorView;
use crate::numbers::write_number;
#[allow(unused_imports)]
use crate::numbers::decimal;
use crate::status::{RecordingState, RecordingStatus};
#[allow(unused_imports)]
use crate::status::RecordingStatusView;
use crate::text::{chars_of, copy_text, string_of, trim};
#[allow(unused_imports)]
use crate::text::{
    is_white_space, law_trimming, law_trimming_takes_only_white_space, opt_text, texts, trimmed,
};
use crate::wav::{wav_bytes, Recording};
#[allow(unused_imports)]
use crate::wav::{law_bytes_of_a_file, law_bytes_of_a_sample, rates_fit, wav_file};

verus! {

/// What a recording needs before it begins.
#[derive(Debug)]
pub struct RecordTarget {
    pub api_key: String,
    pub hindsight_url: String,
    pub bank: String,
}

/// The ElevenLabs key of a run; `stored` is what the Keychain holds.
pub open spec fn api_key_of(config: Config, stored: Option<Seq<char>>) -> Option<Seq<char>> {
    elevenlabs_key(config, stored)
}

/// What a recording lacks: the ElevenLabs key, the Hindsight URL, or the bank, in this order.
pub open spec fn missing(config: Config, stored: Option<Seq<char>>) -> Option<ErrorView> {
    if api_key_of(config, stored) is None {
        Some(ErrorView::MissingApiKey)
    } else if config.hindsight_url is None {
        Some(ErrorView::MissingHindsightUrl { profile: config.profile@ })
    } else if config.bank is None {
        Some(ErrorView::MissingBank { profile: config.profile@ })
    } else {
        None
    }
}

/// Gathers what a recording needs; `stored` is the ElevenLabs key that the Keychain holds.
pub fn record_target(config: &Config, stored: Option<String>) -> (r: Result<RecordTarget, Error>)
    ensures
        match r {
            Ok(target) => {
                &&& missing(*config, opt_text(stored)) is None
                &&& Some(target.api_key@) == api_key_of(*config, opt_text(stored))
                &&& Some(target.hindsight_url@) == opt_text(config.hindsight_url)
                &&& Some(target.bank@) == opt_text(config.bank)
                &&& key_takes_precedence(
                    Some(target.api_key@),
                    opt_text(config.cli_elevenlabs_api_key),
                    opt_text(config.env_elevenlabs_api_key),
                    opt_text(stored),
                    opt_text(config.elevenlabs_api_key),
                )
            },
            Err(e) => missing(*config, opt_text(stored)) == Some(e@),
        },
{
    proof {
        law_keys_of_a_run(*config, opt_text(stored));
    }
    let api_key: String = match resolve_api_key(config, stored) {
        Some(key) => key,
        None => return Err(missing_api_key_error()),
    };
    let hindsight_url: String = match copy_text(&config.hindsight_url) {
        Some(url) => url,
        None => return Err(Error::MissingHindsightUrl { profile: config.profile.clone() }),
    };
    let bank: String = match copy_text(&config.bank) {
        Some(bank) => bank,
        None => return Err(Error::MissingBank { profile: config.profile.clone() }),
    };
    Ok(RecordTarget { api_key, hindsight_url, bank })
}

/// The text of a moment as `time` formats it by RFC 3339, if it can. The moment is given in
/// nanoseconds since 1970 began in UTC.
pub uninterp spec fn rfc3339(unix_nanos: i128) -> Option<Seq<char>>;

/// The nanoseconds from the beginning of 1970 to that of the year ten thousand.
pub const FOUR_DIGIT_YEARS: i128 = 253402300800000000000;

/// Formats a moment with `time::OffsetDateTime::from_unix_timestamp_nanos` and
/// `time::OffsetDateTime::format`. The contract names the text, where there is one, and claims that
/// there is one for every moment from the beginning of 1970 to the end of the year 9999.
#[verifier::external_body]
fn format_rfc3339(unix_nanos: i128) -> (text: Option<String>)
    ensures
        opt_text(text) == rfc3339(unix_nanos),
        0 <= unix_nanos < FOUR_DIGIT_YEARS ==> text is Some,
{
    let moment = time::OffsetDateTime::from_unix_timestamp_nanos(unix_nanos).ok()?;
    moment.format(&time::format_description::well_known::Rfc3339).ok()
}

/// The text of a moment, or of the beginning of 1970 where the moment has none.
pub fn moment_text(formatted: Option<String>) -> (text: String)
    ensures
        text@ == match formatted {
            Some(t) => t@,
            None => "1970-01-01T00:00:00Z"@,
        },
{
    match formatted {
        Some(text) => text,
        None => "1970-01-01T00:00:00Z".to_owned(),
    }
}

/// The text of the present moment, which is given in nanoseconds since 1970 began in UTC.
pub fn now_rfc3339(unix_nanos: i128) -> (text: String)
    ensures
        text@ == match rfc3339(unix_nanos) {
            Some(t) => t,
            None => "1970-01-01T00:00:00Z"@,
        },
        0 <= unix_nanos < FOUR_DIGIT_YEARS ==> rfc3339(unix_nanos) == Some(text@),
{
    moment_text(format_rfc3339(unix_nanos))
}

/// Whether what was read from the terminal stops the recording: a line does, be it empty, but
/// neither the end of the input nor a failure to read. `bytes_read` counts the line with its end.
pub fn enter_stops(bytes_read: Option<usize>) -> (stops: bool)
    ensures
        stops == (bytes_read is Some && bytes_read->0 > 0),
{
    match bytes_read {
        Some(count) => count > 0,
        None => false,
    }
}

/// The name under which a device is announced.
pub open spec fn device_name(device: Option<Seq<char>>) -> Seq<char> {
    match device {
        Some(name) => name,
        None => "default input"@,
    }
}

/// The line that announces a recording; a device need not have a name.
pub fn recording_line(device: Option<String>, sample_rate: u32, channels: u16) -> (line: String)
    ensures
        line@ == "Recording from '"@ + device_name(opt_text(device)) + "' at "@ + decimal(
            sample_rate as nat,
        ) + " Hz, "@ + decimal(channels as nat)
            + " channel(s). Press Enter or run `mnemo stop` to stop..."@,
{
    let mut line: String = "Recording from '".to_owned();
    match device {
        Some(name) => line.append(name.as_str()),
        None => line.append("default input"),
    }
    line.append("' at ");
    let rate: String = write_number(sample_rate as u64);
    line.append(rate.as_str());
    line.append(" Hz, ");
    let count: String = write_number(channels as u64);
    line.append(count.as_str());
    line.append(" channel(s). Press Enter or run `mnemo stop` to stop...");
    line
}

/// What follows a step of a recording.
#[derive(Debug)]
pub enum RecordAction {
    /// The recording is to be transcribed.
    Transcribe { wav: Vec<u8> },
    /// The transcript is to be retained.
    Retain { transcript: String },
    /// All is done.
    Finish,
    /// The recording has failed.
    Fail { error: Error },
}

/// What follows a step of a recording, as mathematical values.
pub enum RecordActionView {
    Transcribe { wav: Seq<u8> },
    Retain { transcript: Seq<char> },
    Finish,
    Fail { error: ErrorView },
}

impl View for RecordAction {
    type V = RecordActionView;

    open spec fn view(&self) -> RecordActionView {
        match *self {
            RecordAction::Transcribe { wav } => RecordActionView::Transcribe { wav: wav@ },
            RecordAction::Retain { transcript } => RecordActionView::Retain {
                transcript: transcript@,
            },
            RecordAction::Finish => RecordActionView::Finish,
            RecordAction::Fail { error } => RecordActionView::Fail { error: error@ },
        }
    }
}

/// A step of a recording: the status to announce, if it changes, the lines to print, and what
/// follows.
#[derive(Debug)]
pub struct RecordStep {
    pub status: Option<RecordingStatus>,
    pub lines: Vec<String>,
    pub action: RecordAction,
}

/// A step of a recording, as mathematical values.
#[verifier::ext_equal]
pub struct RecordStepView {
    pub status: Option<RecordingStatusView>,
    pub lines: Seq<Seq<char>>,
    pub action: RecordActionView,
}

impl View for RecordStep {
    type V = RecordStepView;

    open spec fn view(&self) -> RecordStepView {
        RecordStepView {
            status: match self.status {
                Some(status) => Some(status@),
                None => None,
            },
            lines: texts(self.lines@),
            action: self.action@,
        }
    }
}

/// A status of the same recording with another state and remark.
pub open spec fn moved_on(
    status: RecordingStatusView,
    state: RecordingState,
    message: Option<Seq<char>>,
) -> RecordingStatusView {
    RecordingStatusView { state, started_at: status.started_at, message }
}

/// A status of the same recording with another state and remark.
pub fn send_recording_status(
    status: &RecordingStatus,
    state: RecordingState,
    message: Option<String>,
) -> (next: RecordingStatus)
    ensures
        next@ == moved_on(status@, state, opt_text(message)),
{
    RecordingStatus { state, started_at: status.started_at.clone(), message }
}

/// The status with which a recording begins.
pub fn begin_recording(started_at: String) -> (status: RecordingStatus)
    ensures
        status@ == (RecordingStatusView {
            state: RecordingState::Recording,
            started_at: started_at@,
            message: None,
        }),
{
    RecordingStatus { state: RecordingState::Recording, started_at, message: None }
}

/// What follows once the sound is recorded: it is transcribed, as a WAV file.
pub open spec fn after_sound(
    status: RecordingStatusView,
    samples: Seq<i16>,
    sample_rate: u32,
    channels: u16,
) -> RecordStepView {
    RecordStepView {
        status: Some(moved_on(status, RecordingState::Processing, None)),
        lines: seq!["Recording complete. Sending to ElevenLabs..."@],
        action: if 36 + 2 * samples.len() <= usize::MAX {
            RecordActionView::Transcribe { wav: wav_file(samples, sample_rate, channels) }
        } else {
            RecordActionView::Fail { error: ErrorView::RecordingTooLarge }
        },
    }
}

/// What follows once the sound is recorded.
pub fn sound_recorded(status: &RecordingStatus, recording: &Recording) -> (step: RecordStep)
    requires
        rates_fit(recording.sample_rate, recording.channels),
    ensures
        step@ == after_sound(
            status@,
            recording.samples@,
            recording.sample_rate,
            recording.channels,
        ),
{
    let mut lines: Vec<String> = Vec::new();
    lines.push("Recording complete. Sending to ElevenLabs...".to_owned());
    assert(texts(lines@) == seq!["Recording complete. Sending to ElevenLabs..."@]);
    let action: RecordAction = match wav_bytes(
        recording.samples.as_slice(),
        recording.sample_rate,
        recording.channels,
    ) {
        Ok(wav) => RecordAction::Transcribe { wav },
        Err(error) => RecordAction::Fail { error },
    };
    RecordStep {
        status: Some(send_recording_status(status, RecordingState::Processing, None)),
        lines,
        action,
    }
}

/// What follows once the transcript is there: it is retained without surrounding white space,
/// unless nothing is left of it.
pub open spec fn after_transcript(
    status: RecordingStatusView,
    transcript: Seq<char>,
    bank: Seq<char>,
) -> RecordStepView {
    let said = trimmed(transcript);
    if said.len() == 0 {
        RecordStepView {
            status: Some(
                moved_on(status, RecordingState::Complete, Some("No speech detected"@)),
            ),
            lines: seq!["No speech detected. Nothing retained in Hindsight."@],
            action: RecordActionView::Finish,
        }
    } else {
        RecordStepView {
            status: None,
            lines: seq![
                "\nTranscription: "@ + said,
                "Retaining transcript in Hindsight bank '"@ + bank + "'..."@,
            ],
            action: RecordActionView::Retain { transcript: said },
        }
    }
}

/// What follows once the transcript is there.
pub fn transcript_received(status: &RecordingStatus, transcript: &str, bank: &str) -> (step:
    RecordStep)
    ensures
        step@ == after_transcript(status@, transcript@, bank@),
        match step.action {
            RecordAction::Retain { transcript: kept } => kept@.len() > 0 && exists|
                from: int,
                to: int,
            |
                {
                    &&& 0 <= from <= to <= transcript@.len()
                    &&& kept@ == #[trigger] transcript@.subrange(from, to)
                    &&& forall|i: int| 0 <= i < from ==> is_white_space(#[trigger] transcript@[i])
                    &&& forall|i: int|
                        to <= i < transcript@.len() ==> is_white_space(#[trigger] transcript@[i])
                },
            _ => forall|i: int|
                0 <= i < transcript@.len() ==> is_white_space(#[trigger] transcript@[i]),
        },
{
    proof {
        law_trimming(transcript@);
    }
    let chars: Vec<char> = chars_of(transcript);
    let said: &[char] = trim(chars.as_slice());
    let mut lines: Vec<String> = Vec::new();
    if said.len() == 0 {
        lines.push("No speech detected. Nothing retained in Hindsight.".to_owned());
        assert(texts(lines@) == seq!["No speech detected. Nothing retained in Hindsight."@]);
        return RecordStep {
            status: Some(
                send_recording_status(
                    status,
                    RecordingState::Complete,
                    Some("No speech detected".to_owned()),
                ),
            ),
            lines,
            action: RecordAction::Finish,
        };
    }
    let text: String = string_of(said);
    let mut first: String = "\nTranscription: ".to_owned();
    first.append(text.as_str());
    let mut second: String = "Retaining transcript in Hindsight bank '".to_owned();
    second.append(bank);
    second.append("'...");
    lines.push(first);
    lines.push(second);
    assert(texts(lines@) == seq![
        "\nTranscription: "@ + said@,
        "Retaining transcript in Hindsight bank '"@ + bank@ + "'..."@,
    ]);
    RecordStep {
        status: None,
        lines,
        action: RecordAction::Retain { transcript: text },
    }
}

/// What follows once the transcript is retained: nothing.
pub open spec fn after_retention(status: RecordingStatusView) -> RecordStepView {
    RecordStepView {
        status: Some(moved_on(status, RecordingState::Complete, None)),
        lines: seq!["Retained in Hindsight."@],
        action: RecordActionView::Finish,
    }
}

/// What follows once the transcript is retained.
pub fn transcript_retained(status: &RecordingStatus) -> (step: RecordStep)
    ensures
        step@ == after_retention(status@),
{
    let mut lines: Vec<String> = Vec::new();
    lines.push("Retained in Hindsight.".to_owned());
    assert(texts(lines@) == seq!["Retained in Hindsight."@]);
    RecordStep {
        status: Some(send_recording_status(status, RecordingState::Complete, None)),
        lines,
        action: RecordAction::Finish,
    }
}

/// The status of a recording that has failed, with the words of the failure.
pub fn recording_failed(status: &RecordingStatus, message: &str) -> (next: RecordingStatus)
    ensures
        next@ == moved_on(status@, RecordingState::Error, Some(message@)),
{
    send_recording_status(status, RecordingState::Error, Some(message.to_owned()))
}

/// The status after a step.
pub open spec fn status_after(
    status: RecordingStatusView,
    step: RecordStepView,
) -> RecordingStatusView {
    match step.status {
        Some(next) => next,
        None => status,
    }
}

/// What the devices and services make of a recording: the sound, if it could be recorded, its
/// transcript, if there is one, and whether the transcript was retained.
pub struct Outcome {
    pub sound: Option<(Seq<i16>, u32, u16)>,
    pub transcript: Option<Seq<char>>,
    pub retained: bool,
}

/// The statuses that are announced in the course of a recording, where a failure is told in the
/// words `failure`.
pub open spec fn course(
    started_at: Seq<char>,
    outcome: Outcome,
    bank: Seq<char>,
    failure: Seq<char>,
) -> Seq<RecordingStatusView> {
    let first = RecordingStatusView { state: RecordingState::Recording, started_at, message: None };
    match outcome.sound {
        None => seq![first, moved_on(first, RecordingState::Error, Some(failure))],
        Some((samples, sample_rate, channels)) => {
            let sound = after_sound(first, samples, sample_rate, channels);
            let second = status_after(first, sound);
            match (sound.action, outcome.transcript) {
                (RecordActionView::Transcribe { .. }, Some(transcript)) => {
                    let told = after_transcript(second, transcript, bank);
                    if told.action is Finish {
                        seq![first, second, status_after(second, told)]
                    } else if outcome.retained {
                        seq![first, second, status_after(second, after_retention(second))]
                    } else {
                        seq![first, second, moved_on(second, RecordingState::Error, Some(failure))]
                    }
                },
                _ => seq![first, second, moved_on(second, RecordingState::Error, Some(failure))],
            }
        },
    }
}

/// Whether all goes well: the sound is recorded and fits in memory, it is transcribed, and what was
/// said, if anything, is retained.
pub open spec fn goes_well(outcome: Outcome) -> bool {
    &&& match outcome.sound {
        Some((samples, _, _)) => 36 + 2 * samples.len() <= usize::MAX,
        None => false,
    }
    &&& outcome.transcript is Some
    &&& trimmed(outcome.transcript->0).len() == 0 || outcome.retained
}

/// All along its course, a recording says when it began.
pub proof fn law_beginning_is_kept(
    started_at: Seq<char>,
    outcome: Outcome,
    bank: Seq<char>,
    failure: Seq<char>,
)
    ensures
        forall|i: int|
            0 <= i < course(started_at, outcome, bank, failure).len() ==> (#[trigger] course(
                started_at,
                outcome,
                bank,
                failure,
            )[i]).started_at == started_at,
{
}

/// A recording is announced as recording, then as processing once there is sound, and at last as
/// complete, if all went well, or else as an error that says what failed; after that nothing is
/// announced.
pub proof fn law_course_of_a_recording(
    started_at: Seq<char>,
    outcome: Outcome,
    bank: Seq<char>,
    failure: Seq<char>,
)
    ensures
        ({
            let told = course(started_at, outcome, bank, failure);
            &&& told[0].state == RecordingState::Recording
            &&& outcome.sound is None ==> told.len() == 2
            &&& outcome.sound is Some ==> told.len() == 3 && told[1].state
                == RecordingState::Processing
            &&& goes_well(outcome) ==> told.last().state == RecordingState::Complete
            &&& !goes_well(outcome) ==> told.last().state == RecordingState::Error
                && told.last().message == Some(failure)
        }),
{
}

/// A note is retained only where something was said; silence ends the recording as complete, and
/// says so.
pub proof fn law_silence_is_not_retained(
    status: RecordingStatusView,
    transcript: Seq<char>,
    bank: Seq<char>,
)
    ensures
        ({
            let step = after_transcript(status, transcript, bank);
            &&& step.action is Retain <==> trimmed(transcript).len() > 0
            &&& step.action is Retain ==> step.action->transcript == trimmed(transcript)
            &&& trimmed(transcript).len() == 0 ==> step.action is Finish && status_after(
                status,
                step,
            ) == moved_on(status, RecordingState::Complete, Some("No speech detected"@))
        }),
{
}

/// What a recording lacks, by what is set: the ElevenLabs key, if neither a flag nor a variable nor
/// the Keychain nor the profile gives one; otherwise the Hindsight URL, if there is none; otherwise
/// the bank, if there is none; otherwise nothing.
pub proof fn law_what_a_recording_lacks(config: Config, stored: Option<Seq<char>>)
    ensures
        ({
            let has_key = {
                ||| config.cli_elevenlabs_api_key is Some && config.cli_elevenlabs_api_key->0@.len()
                    > 0
                ||| config.env_elevenlabs_api_key is Some && config.env_elevenlabs_api_key->0@.len()
                    > 0
                ||| stored is Some
                ||| config.elevenlabs_api_key is Some
            };
            let lacks = missing(config, stored);
            &&& !has_key ==> lacks == Some(ErrorView::MissingApiKey)
            &&& has_key && config.hindsight_url is None ==> lacks == Some(
                ErrorView::MissingHindsightUrl { profile: config.profile@ },
            )
            &&& has_key && config.hindsight_url is Some && config.bank is None ==> lacks == Some(
                ErrorView::MissingBank { profile: config.profile@ },
            )
            &&& has_key && config.hindsight_url is Some && config.bank is Some ==> lacks is None
        }),
{
    law_keys_of_a_run(config, stored);
}

/// What is retained is what was said: the transcript without the white space before and after it,
/// and nothing else is taken from it. It is printed as it is retained, and the bank is named.
pub proof fn law_what_was_said_is_retained(
    status: RecordingStatusView,
    before: Seq<char>,
    said: Seq<char>,
    after: Seq<char>,
    bank: Seq<char>,
)
    requires
        forall|i: int| 0 <= i < before.len() ==> is_white_space(#[trigger] before[i]),
        forall|i: int| 0 <= i < after.len() ==> is_white_space(#[trigger] after[i]),
        said.len() > 0,
        !is_white_space(said[0]),
        !is_white_space(said[said.len() - 1]),
    ensures
        ({
            let step = after_transcript(status, before + said + after, bank);
            &&& step.action == (RecordActionView::Retain { transcript: said })
            &&& step.status is None
            &&& step.lines == seq![
                "\nTranscription: "@ + said,
                "Retaining transcript in Hindsight bank '"@ + bank + "'..."@,
            ]
        }),
{
    law_trimming_takes_only_white_space(before, said, after);
}

/// A transcript of nothing but white space ends the recording as complete, with a remark.
pub proof fn law_white_space_is_silence(
    status: RecordingStatusView,
    transcript: Seq<char>,
    bank: Seq<char>,
)
    requires
        forall|i: int| 0 <= i < transcript.len() ==> is_white_space(#[trigger] transcript[i]),
    ensures
        ({
            let step = after_transcript(status, transcript, bank);
            &&& step.action == RecordActionView::Finish
            &&& step.status == Some(
                RecordingStatusView {
                    state: RecordingState::Complete,
                    started_at: status.started_at,
                    message: Some("No speech detected"@),
                },
            )
            &&& step.lines == seq!["No speech detected. Nothing retained in Hindsight."@]
        }),
{
    law_trimming_takes_only_white_space(transcript, Seq::empty(), Seq::empty());
    assert(transcript + Seq::empty() + Seq::empty() == transcript);
}

/// What is sent to be transcribed is the whole sound: the file has the rate and the channels of the
/// recording, and every sample in its place. Meanwhile the recording is being processed.
pub proof fn law_the_whole_sound_is_sent(
    status: RecordingStatusView,
    samples: Seq<i16>,
    sample_rate: u32,
    channels: u16,
)
    requires
        rates_fit(sample_rate, channels),
        36 + 2 * samples.len() <= usize::MAX,
    ensures
        ({
            let step = after_sound(status, samples, sample_rate, channels);
            let f = step.action->wav;
            &&& step.action is Transcribe
            &&& f.len() == 44 + 2 * samples.len()
            &&& f[22] + 256 * f[23] == channels
            &&& f[24] + 256 * f[25] + 65536 * f[26] + 16777216 * f[27] == sample_rate
            &&& forall|i: int|
                #![trigger samples[i]]
                0 <= i < samples.len() ==> f[44 + 2 * i] + 256 * f[45 + 2 * i] == samples[i]
                    || f[44 + 2 * i] + 256 * f[45 + 2 * i] == samples[i] + 65536
            &&& step.status == Some(
                RecordingStatusView {
                    state: RecordingState::Processing,
                    started_at: status.started_at,
                    message: None,
                },
            )
            &&& step.lines == seq!["Recording complete. Sending to ElevenLabs..."@]
        }),
{
    law_bytes_of_a_file(samples, sample_rate, channels);
    assert forall|i: int|
        #![trigger samples[i]]
        0 <= i < samples.len() implies ({
        let f = wav_file(samples, sample_rate, channels);
        f[44 + 2 * i] + 256 * f[45 + 2 * i] == samples[i] || f[44 + 2 * i] + 256 * f[45 + 2 * i]
            == samples[i] + 65536
    }) by {
        law_bytes_of_a_sample(samples, sample_rate, channels, i);
    }
}

/// Once the transcript is retained, the recording is complete, without a remark.
pub proof fn law_retention_completes_the_recording(status: RecordingStatusView)
    ensures
        ({
            let step = after_retention(status);
            &&& step.action == RecordActionView::Finish
            &&& step.status == Some(
                RecordingStatusView {
                    state: RecordingState::Complete,
                    started_at: status.started_at,
                    message: None,
                },
            )
            &&& step.lines == seq!["Retained in Hindsight."@]
        }),
{
}

/// A status that moves on has the new state and the new remark, and the beginning of the old one.
pub proof fn law_moving_on(
    status: RecordingStatusView,
    state: RecordingState,
    message: Option<Seq<char>>,
)
    ensures
        moved_on(status, state, message).state == state,
        moved_on(status, state, message).message == message,
        moved_on(status, state, message).started_at == status.started_at,
{
}

/// A device is announced under its own name, if it has one.
pub proof fn law_devices_have_their_names(name: Seq<char>)
    ensures
        device_name(Some(name)) == name,
        device_name(None) == "default input"@,
{
}

/// The view of a step is what it holds: the status, the lines one by one, and the action with all
/// that it carries.
pub proof fn law_view_of_a_step(step: RecordStep)
    ensures
        step@.status is Some <==> step.status is Some,
        step.status is Some ==> step@.status->0 == step.status->0@,
        step@.lines.len() == step.lines@.len(),
        forall|i: int| 0 <= i < step.lines@.len() ==> step@.lines[i] == #[trigger] step.lines@[i]@,
        match step.action {
            RecordAction::Transcribe { wav } => step@.action == (RecordActionView::Transcribe {
                wav: wav@,
            }),
            RecordAction::Retain { transcript } => step@.action == (RecordActionView::Retain {
                transcript: transcript@,
            }),
            RecordAction::Finish => step@.action == RecordActionView::Finish,
            RecordAction::Fail { error } => step@.action == (RecordActionView::Fail {
                error: error@,
            }),
        },
{
}

} // verus!
