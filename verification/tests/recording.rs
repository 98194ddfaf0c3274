use mnemo::config::Config;
use mnemo::error::Error;
use mnemo::json::JsonValue;
use mnemo::metadata::metadata_of_pairs;
use mnemo::paths::NativePath;
use mnemo::recording::{
    begin_recording, enter_stops, moment_text, now_rfc3339, record_target, recording_failed, recording_line,
    send_recording_status, sound_recorded, transcript_received, transcript_retained, RecordAction,
    FOUR_DIGIT_YEARS,
};
use mnemo::requests::{
    check_retention, check_transcription, form_fields, retain_request, transcription_fields,
    AUDIO_FILE_NAME, AUDIO_MIME_TYPE, AUDIO_PART_NAME, TRANSCRIPTION_KEY_HEADER,
    TRANSCRIPTION_URL,
};
use mnemo::status::{RecordingState, RecordingStatus};
use mnemo::wav::{wav_bytes, Recording};

fn config() -> Config {
    Config {
        profile: "work".to_string(),
        hindsight_url: Some("https://h.example".to_string()),
        bank: Some("notes".to_string()),
        language: "eng".to_string(),
        model: "scribe_v2".to_string(),
        cli_elevenlabs_api_key: None,
        env_elevenlabs_api_key: Some("key".to_string()),
        elevenlabs_api_key: None,
        cli_hindsight_api_key: None,
        env_hindsight_api_key: None,
        hindsight_api_key: None,
        socket_path: NativePath { bytes: Vec::new() },
        context: "memo".to_string(),
        metadata: None,
        tags: None,
        strategy: None,
    }
}

fn begun() -> RecordingStatus {
    begin_recording("2026-05-09T12:00:00Z".to_string())
}

fn pair(k: &str, v: &str) -> (String, String) {
    (k.to_string(), v.to_string())
}

#[test]
fn a_recording_needs_a_key_a_url_and_a_bank() {
    let target = record_target(&config(), None).unwrap();
    assert_eq!(target.api_key, "key");
    assert_eq!(target.hindsight_url, "https://h.example");
    assert_eq!(target.bank, "notes");

    let mut lacking = config();
    lacking.bank = None;
    assert_eq!(
        record_target(&lacking, None).unwrap_err().message(),
        "MNEMO_BANK_ID must be set in the environment, profile 'work' in the config file, or --bank"
    );
    lacking.hindsight_url = None;
    assert_eq!(
        record_target(&lacking, None).unwrap_err().message(),
        "MNEMO_HINDSIGHT_API_URL must be set in the environment, profile 'work' in the config file, or --hindsight-url"
    );
    lacking.env_elevenlabs_api_key = None;
    assert!(matches!(
        record_target(&lacking, None).unwrap_err(),
        Error::MissingApiKey
    ));
    let mut stored = config();
    stored.env_elevenlabs_api_key = None;
    let target = record_target(&stored, Some("kept".to_string())).unwrap();
    assert_eq!(target.api_key, "kept");
}

#[test]
fn moments_are_written_by_rfc_3339() {
    assert_eq!(now_rfc3339(0), "1970-01-01T00:00:00Z");
    assert_eq!(now_rfc3339(951_782_400_000_000_000), "2000-02-29T00:00:00Z");
    assert_eq!(now_rfc3339(1_778_328_000_500_000_000), "2026-05-09T12:00:00.5Z");
    assert_eq!(now_rfc3339(FOUR_DIGIT_YEARS - 1), "9999-12-31T23:59:59.999999999Z");
    assert_eq!(now_rfc3339(FOUR_DIGIT_YEARS), "1970-01-01T00:00:00Z");
    assert_eq!(now_rfc3339(i128::MAX), "1970-01-01T00:00:00Z");
    assert_eq!(now_rfc3339(i128::MIN), "1970-01-01T00:00:00Z");
    let now = time::OffsetDateTime::now_utc();
    let expected = now.format(&time::format_description::well_known::Rfc3339).unwrap();
    assert_eq!(now_rfc3339(now.unix_timestamp_nanos()), expected);
}

#[test]
fn a_moment_without_text_is_the_beginning_of_1970() {
    assert_eq!(moment_text(Some("x".to_string())), "x");
    assert_eq!(moment_text(None), "1970-01-01T00:00:00Z");
}

#[test]
fn a_recording_is_announced() {
    assert_eq!(
        recording_line(Some("Mic".to_string()), 44100, 2),
        "Recording from 'Mic' at 44100 Hz, 2 channel(s). Press Enter or run `mnemo stop` to stop..."
    );
    assert_eq!(
        recording_line(None, 8000, 1),
        "Recording from 'default input' at 8000 Hz, 1 channel(s). Press Enter or run `mnemo stop` to stop..."
    );
}

#[test]
fn recorded_sound_is_transcribed() {
    let status = begun();
    assert_eq!(status.state, RecordingState::Recording);
    assert_eq!(status.message, None);
    let recording = Recording { samples: vec![1, 2, 3], sample_rate: 16000, channels: 1 };
    let step = sound_recorded(&status, &recording);
    let next = step.status.unwrap();
    assert_eq!(next.state, RecordingState::Processing);
    assert_eq!(next.started_at, "2026-05-09T12:00:00Z");
    assert_eq!(next.message, None);
    assert_eq!(step.lines, vec!["Recording complete. Sending to ElevenLabs..."]);
    match step.action {
        RecordAction::Transcribe { wav } => {
            assert_eq!(wav, wav_bytes(&[1, 2, 3], 16000, 1).unwrap());
        }
        other => panic!("not transcribed: {other:?}"),
    }
}

#[test]
fn what_was_said_is_retained() {
    let step = transcript_received(&begun(), " Hello there.\n", "notes");
    assert!(step.status.is_none());
    assert_eq!(
        step.lines,
        vec![
            "\nTranscription: Hello there.",
            "Retaining transcript in Hindsight bank 'notes'...",
        ]
    );
    match step.action {
        RecordAction::Retain { transcript } => assert_eq!(transcript, "Hello there."),
        other => panic!("not retained: {other:?}"),
    }
}

#[test]
fn silence_is_not_retained() {
    for silence in ["", " \n\t", "\u{3000}"] {
        let step = transcript_received(&begun(), silence, "notes");
        let next = step.status.unwrap();
        assert_eq!(next.state, RecordingState::Complete);
        assert_eq!(next.message, Some("No speech detected".to_string()));
        assert_eq!(next.started_at, "2026-05-09T12:00:00Z");
        assert_eq!(step.lines, vec!["No speech detected. Nothing retained in Hindsight."]);
        assert!(matches!(step.action, RecordAction::Finish));
    }
}

#[test]
fn a_retained_note_completes_the_recording() {
    let step = transcript_retained(&begun());
    let next = step.status.unwrap();
    assert_eq!(next.state, RecordingState::Complete);
    assert_eq!(next.message, None);
    assert_eq!(next.started_at, "2026-05-09T12:00:00Z");
    assert_eq!(step.lines, vec!["Retained in Hindsight."]);
    assert!(matches!(step.action, RecordAction::Finish));
}

#[test]
fn a_failed_recording_says_why() {
    let next = recording_failed(&begun(), "failed to call ElevenLabs STT");
    assert_eq!(next.state, RecordingState::Error);
    assert_eq!(next.started_at, "2026-05-09T12:00:00Z");
    assert_eq!(next.message, Some("failed to call ElevenLabs STT".to_string()));
}

#[test]
fn a_status_keeps_the_beginning() {
    let next = send_recording_status(&begun(), RecordingState::Complete, None);
    assert_eq!(next.started_at, "2026-05-09T12:00:00Z");
    assert_eq!(next.state, RecordingState::Complete);
}

#[test]
fn the_course_of_a_recording() {
    let mut told = vec![begun()];
    let recording = Recording { samples: vec![0; 8], sample_rate: 8000, channels: 2 };
    told.extend(sound_recorded(&told[0], &recording).status);
    let step = transcript_received(&told[1], "note", "b");
    assert!(step.status.is_none());
    told.extend(transcript_retained(&told[1]).status);
    let states: Vec<RecordingState> = told.iter().map(|s| s.state).collect();
    assert_eq!(
        states,
        vec![
            RecordingState::Recording,
            RecordingState::Processing,
            RecordingState::Complete,
        ]
    );
    assert!(told.iter().all(|s| s.started_at == told[0].started_at));
}

#[test]
fn too_large_a_recording_is_refused() {
    assert_eq!(Error::RecordingTooLarge.message(), "recording is too large");
}

#[test]
fn the_language_is_sent_unless_it_is_auto() {
    let mut config = config();
    let base = vec![pair("model_id", "scribe_v2"), pair("tag_audio_events", "false")];
    for auto in ["auto", "AUTO", "Auto"] {
        config.language = auto.to_string();
        assert_eq!(transcription_fields(&config), base);
    }
    for language in ["eng", "ENG", "automatic", "", "ÄUTO"] {
        config.language = language.to_string();
        let mut expected = base.clone();
        expected.push(pair("language_code", language));
        assert_eq!(transcription_fields(&config), expected);
    }
    assert_eq!(form_fields("m", "X", "auto").len(), 2);
    assert_eq!(form_fields("m", "X", "x")[2], pair("language_code", "X"));
}

#[test]
fn the_transcription_request_is_addressed() {
    assert_eq!(TRANSCRIPTION_URL, "https://api.elevenlabs.io/v1/speech-to-text");
    assert_eq!(TRANSCRIPTION_KEY_HEADER, "xi-api-key");
    assert_eq!(AUDIO_PART_NAME, "file");
    assert_eq!(AUDIO_FILE_NAME, "audio.wav");
    assert_eq!(AUDIO_MIME_TYPE, "audio/x-wav");
}

#[test]
fn failed_answers_are_reported() {
    let body = || "nope".to_string();
    assert_eq!(check_transcription(true, "200 OK", body()).unwrap(), "nope");
    assert_eq!(
        check_transcription(false, "401 Unauthorized", body()).unwrap_err().message(),
        "ElevenLabs STT failed with 401 Unauthorized: nope"
    );
    assert!(check_retention(true, "200 OK", body()).is_ok());
    assert_eq!(
        check_retention(false, "500 Internal Server Error", body()).unwrap_err().message(),
        "Hindsight retain failed with 500 Internal Server Error: nope"
    );
}

#[test]
fn slashes_after_the_url_do_not_matter() {
    let config = config();
    for base in ["https://h.example", "https://h.example/", "https://h.example///"] {
        let request = retain_request(&config, base, "notes", "hi", None);
        assert_eq!(request.url, "https://h.example/v1/default/banks/notes/memories");
    }
}

/// The compact text of a value, to compare with.
fn shown(value: &JsonValue) -> String {
    match value {
        JsonValue::Null => "null".to_string(),
        JsonValue::Bool { value } => value.to_string(),
        JsonValue::Text { text } => format!("{text:?}"),
        JsonValue::List { items } => {
            let items: Vec<String> = items.iter().map(shown).collect();
            format!("[{}]", items.join(","))
        }
        JsonValue::Object { fields } => {
            let fields: Vec<String> = fields
                .iter()
                .map(|(name, value)| format!("{name:?}:{}", shown(value)))
                .collect();
            format!("{{{}}}", fields.join(","))
        }
    }
}

#[test]
fn unset_settings_are_sent_as_null() {
    let config = config();
    let request = retain_request(&config, "u", "b", "hi", None);
    assert_eq!(request.api_key, None);
    assert_eq!(
        shown(&request.body),
        "{\"items\":[{\"content\":\"hi\",\"context\":\"memo\",\"metadata\":null,\"tags\":null,\"strategy\":null}],\"async\":false}"
    );
}

#[test]
fn settings_are_sent_with_the_note() {
    let mut config = config();
    config.metadata = Some(metadata_of_pairs(vec![pair("source", "mnemo"), pair("a", "b")]));
    config.tags = Some(vec!["voice-note".to_string(), "x".to_string()]);
    config.strategy = Some("append".to_string());
    let request = retain_request(&config, "u", "b", "hi", Some("hs".to_string()));
    assert_eq!(request.api_key, Some("hs".to_string()));
    assert_eq!(
        shown(&request.body),
        "{\"items\":[{\"content\":\"hi\",\"context\":\"memo\",\"metadata\":{\"a\":\"b\",\"source\":\"mnemo\"},\"tags\":[\"voice-note\",\"x\"],\"strategy\":\"append\"}],\"async\":false}"
    );
}

#[test]
fn a_line_stops_the_recording_but_the_end_of_input_does_not() {
    assert!(enter_stops(Some(1)));
    assert!(enter_stops(Some(12)));
    assert!(!enter_stops(Some(0)));
    assert!(!enter_stops(None));
}

#[test]
fn a_message_that_cannot_be_encoded_is_reported() {
    let error = Error::MessageNotEncoded { reason: "why".to_string() };
    assert_eq!(error.message(), "failed to serialize socket message");
    assert_eq!(error.cause(), Some("why".to_string()));
}
