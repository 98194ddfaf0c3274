//! What can go wrong, and the words that tell the user.

use vstd::prelude::*;

use crate::numbers::{write_number, NumberFault};
#[allow(unused_imports)]
use crate::numbers::{decimal, fault_text};
#[allow(unused_imports)]
use crate::text::opt_text;

verus! {

/// A failure of the recorder.
#[derive(Debug)]
pub enum Error {
    /// The home directory is unknown.
    HomeNotSet,
    /// No ElevenLabs API key was found anywhere.
    MissingApiKey,
    /// No Hindsight URL was configured for the profile.
    MissingHindsightUrl { profile: String },
    /// No memory bank was configured for the profile.
    MissingBank { profile: String },
    /// A configuration file is already there.
    ConfigExists { path: String },
    /// There is no API key to store.
    NoKeysToSync,
    /// The Keychain refused to store a key.
    KeychainWriteFailed { detail: String },
    /// The Keychain refused to delete a key.
    KeychainRemoveFailed { profile: String, detail: String },
    /// The Keychain could not be listed.
    KeychainListFailed,
    /// A part of the selection is not a number.
    InvalidSelection { part: String, fault: NumberFault },
    /// A selected number stands beside no entry.
    SelectionOutOfRange { index: usize },
    /// A metadata entry has no `=`.
    MetadataFormat { entry: String },
    /// A metadata entry has no key.
    MetadataEmptyKey,
    /// The metadata variable does not hold a JSON object of strings.
    MetadataJson { reason: String },
    /// Another recorder is alive.
    AlreadyRecording { path: String },
    /// It cannot be told whether another recorder is alive.
    SocketCheckFailed { path: String, reason: String },
    /// A socket that nobody serves cannot be removed.
    StaleSocketNotRemoved { path: String, reason: String },
    /// A message cannot be put in JSON.
    MessageNotEncoded { reason: String },
    /// The recording exceeds what memory can address.
    RecordingTooLarge,
    /// ElevenLabs answered with a failure.
    TranscriptionFailed { status: String, body: String },
    /// Hindsight answered with a failure.
    RetainFailed { status: String, body: String },
}

/// What a failure says, as mathematical values.
pub enum ErrorView {
    HomeNotSet,
    MissingApiKey,
    MissingHindsightUrl { profile: Seq<char> },
    MissingBank { profile: Seq<char> },
    ConfigExists { path: Seq<char> },
    NoKeysToSync,
    KeychainWriteFailed { detail: Seq<char> },
    KeychainRemoveFailed { profile: Seq<char>, detail: Seq<char> },
    KeychainListFailed,
    InvalidSelection { part: Seq<char>, fault: NumberFault },
    SelectionOutOfRange { index: nat },
    MetadataFormat { entry: Seq<char> },
    MetadataEmptyKey,
    MetadataJson { reason: Seq<char> },
    AlreadyRecording { path: Seq<char> },
    SocketCheckFailed { path: Seq<char>, reason: Seq<char> },
    StaleSocketNotRemoved { path: Seq<char>, reason: Seq<char> },
    MessageNotEncoded { reason: Seq<char> },
    RecordingTooLarge,
    TranscriptionFailed { status: Seq<char>, body: Seq<char> },
    RetainFailed { status: Seq<char>, body: Seq<char> },
}

impl View for Error {
    type V = ErrorView;

    open spec fn view(&self) -> ErrorView {
        match *self {
            Error::HomeNotSet => ErrorView::HomeNotSet,
            Error::MissingApiKey => ErrorView::MissingApiKey,
            Error::MissingHindsightUrl { profile } => ErrorView::MissingHindsightUrl {
                profile: profile@,
            },
            Error::MissingBank { profile } => ErrorView::MissingBank { profile: profile@ },
            Error::ConfigExists { path } => ErrorView::ConfigExists { path: path@ },
            Error::NoKeysToSync => ErrorView::NoKeysToSync,
            Error::KeychainWriteFailed { detail } => ErrorView::KeychainWriteFailed {
                detail: detail@,
            },
            Error::KeychainRemoveFailed { profile, detail } => ErrorView::KeychainRemoveFailed {
                profile: profile@,
                detail: detail@,
            },
            Error::KeychainListFailed => ErrorView::KeychainListFailed,
            Error::InvalidSelection { part, fault } => ErrorView::InvalidSelection {
                part: part@,
                fault,
            },
            Error::SelectionOutOfRange { index } => ErrorView::SelectionOutOfRange {
                index: index as nat,
            },
            Error::MetadataFormat { entry } => ErrorView::MetadataFormat { entry: entry@ },
            Error::MetadataEmptyKey => ErrorView::MetadataEmptyKey,
            Error::MetadataJson { reason } => ErrorView::MetadataJson { reason: reason@ },
            Error::AlreadyRecording { path } => ErrorView::AlreadyRecording { path: path@ },
            Error::SocketCheckFailed { path, reason } => ErrorView::SocketCheckFailed {
                path: path@,
                reason: reason@,
            },
            Error::StaleSocketNotRemoved { path, reason } => ErrorView::StaleSocketNotRemoved {
                path: path@,
                reason: reason@,
            },
            Error::MessageNotEncoded { reason } => ErrorView::MessageNotEncoded { reason: reason@ },
            Error::RecordingTooLarge => ErrorView::RecordingTooLarge,
            Error::TranscriptionFailed { status, body } => ErrorView::TranscriptionFailed {
                status: status@,
                body: body@,
            },
            Error::RetainFailed { status, body } => ErrorView::RetainFailed {
                status: status@,
                body: body@,
            },
        }
    }
}

impl ErrorView {
    /// The message that the user reads.
    pub open spec fn text(self) -> Seq<char> {
        match self {
            ErrorView::HomeNotSet => "HOME environment variable is not set"@,
            ErrorView::MissingApiKey => "no API key found. Set one of:\n  export MNEMO_ELEVENLABS_API_KEY=...\n  mnemo keychain sync\n  elevenlabs_api_key = \"...\" in ~/.config/mnemo/config.toml"@,
            ErrorView::MissingHindsightUrl { profile } => {
                "MNEMO_HINDSIGHT_API_URL must be set in the environment, profile '"@ + profile
                    + "' in the config file, or --hindsight-url"@
            },
            ErrorView::MissingBank { profile } => {
                "MNEMO_BANK_ID must be set in the environment, profile '"@ + profile
                    + "' in the config file, or --bank"@
            },
            ErrorView::ConfigExists { path } => {
                "config file already exists at "@ + path + ". Use --force to overwrite it"@
            },
            ErrorView::NoKeysToSync => "no API keys found to sync. Set MNEMO_ELEVENLABS_API_KEY or MNEMO_HINDSIGHT_API_KEY in your shell first, then re-run"@,
            ErrorView::KeychainWriteFailed { detail } => {
                "/usr/bin/security failed to write keychain entry: "@ + detail
            },
            ErrorView::KeychainRemoveFailed { profile, detail } => {
                "no keychain entry for profile '"@ + profile + "' or deletion failed: "@ + detail
            },
            ErrorView::KeychainListFailed => "/usr/bin/security failed to list keychain entries"@,
            ErrorView::InvalidSelection { part, .. } => "invalid selection: "@ + part,
            ErrorView::SelectionOutOfRange { index } => {
                "selection out of range: "@ + decimal(index)
            },
            ErrorView::MetadataFormat { entry } => {
                "metadata entries must use KEY=VALUE format: "@ + entry
            },
            ErrorView::MetadataEmptyKey => "metadata keys cannot be empty"@,
            ErrorView::MetadataJson { .. } => "failed to parse MNEMO_METADATA JSON"@,
            ErrorView::AlreadyRecording { path } => "mnemo is already recording via "@ + path,
            ErrorView::SocketCheckFailed { path, .. } => "failed to check socket "@ + path,
            ErrorView::StaleSocketNotRemoved { path, .. } => {
                "failed to remove stale socket "@ + path
            },
            ErrorView::MessageNotEncoded { .. } => "failed to serialize socket message"@,
            ErrorView::RecordingTooLarge => "recording is too large"@,
            ErrorView::TranscriptionFailed { status, body } => {
                "ElevenLabs STT failed with "@ + status + ": "@ + body
            },
            ErrorView::RetainFailed { status, body } => {
                "Hindsight retain failed with "@ + status + ": "@ + body
            },
        }
    }

    /// What lies behind the failure, where there is more to say.
    pub open spec fn cause(self) -> Option<Seq<char>> {
        match self {
            ErrorView::InvalidSelection { fault, .. } => Some(fault_text(fault)),
            ErrorView::MetadataJson { reason } => Some(reason),
            ErrorView::SocketCheckFailed { reason, .. } => Some(reason),
            ErrorView::StaleSocketNotRemoved { reason, .. } => Some(reason),
            ErrorView::MessageNotEncoded { reason } => Some(reason),
            _ => None,
        }
    }
}

/// The text of a message: `first`, then `middle`, then `last`.
fn framed(first: &str, middle: &str, last: &str) -> (text: String)
    ensures
        text@ == first@ + middle@ + last@,
{
    let mut text: String = first.to_owned();
    text.append(middle);
    text.append(last);
    text
}

/// The text of a message: `first`, then `rest`.
fn prefixed(first: &str, rest: &str) -> (text: String)
    ensures
        text@ == first@ + rest@,
{
    let mut text: String = first.to_owned();
    text.append(rest);
    text
}

impl Error {
    /// The message that the user reads.
    pub fn message(&self) -> (text: String)
        ensures
            text@ == self@.text(),
    {
        match self {
            Error::HomeNotSet => "HOME environment variable is not set".to_owned(),
            Error::MissingApiKey => "no API key found. Set one of:\n  export MNEMO_ELEVENLABS_API_KEY=...\n  mnemo keychain sync\n  elevenlabs_api_key = \"...\" in ~/.config/mnemo/config.toml".to_owned(),
            Error::MissingHindsightUrl { profile } => framed(
                "MNEMO_HINDSIGHT_API_URL must be set in the environment, profile '",
                profile.as_str(),
                "' in the config file, or --hindsight-url",
            ),
            Error::MissingBank { profile } => framed(
                "MNEMO_BANK_ID must be set in the environment, profile '",
                profile.as_str(),
                "' in the config file, or --bank",
            ),
            Error::ConfigExists { path } => framed(
                "config file already exists at ",
                path.as_str(),
                ". Use --force to overwrite it",
            ),
            Error::NoKeysToSync => "no API keys found to sync. Set MNEMO_ELEVENLABS_API_KEY or MNEMO_HINDSIGHT_API_KEY in your shell first, then re-run".to_owned(),
            Error::KeychainWriteFailed { detail } => prefixed(
                "/usr/bin/security failed to write keychain entry: ",
                detail.as_str(),
            ),
            Error::KeychainRemoveFailed { profile, detail } => {
                let mut text: String = framed(
                    "no keychain entry for profile '",
                    profile.as_str(),
                    "' or deletion failed: ",
                );
                text.append(detail.as_str());
                text
            },
            Error::KeychainListFailed => {
                "/usr/bin/security failed to list keychain entries".to_owned()
            },
            Error::InvalidSelection { part, .. } => prefixed("invalid selection: ", part.as_str()),
            Error::SelectionOutOfRange { index } => prefixed(
                "selection out of range: ",
                write_number(*index as u64).as_str(),
            ),
            Error::MetadataFormat { entry } => prefixed(
                "metadata entries must use KEY=VALUE format: ",
                entry.as_str(),
            ),
            Error::MetadataEmptyKey => "metadata keys cannot be empty".to_owned(),
            Error::MetadataJson { .. } => "failed to parse MNEMO_METADATA JSON".to_owned(),
            Error::AlreadyRecording { path } => prefixed(
                "mnemo is already recording via ",
                path.as_str(),
            ),
            Error::SocketCheckFailed { path, .. } => prefixed(
                "failed to check socket ",
                path.as_str(),
            ),
            Error::StaleSocketNotRemoved { path, .. } => prefixed(
                "failed to remove stale socket ",
                path.as_str(),
            ),
            Error::MessageNotEncoded { .. } => "failed to serialize socket message".to_owned(),
            Error::RecordingTooLarge => "recording is too large".to_owned(),
            Error::TranscriptionFailed { status, body } => {
                let mut text: String = framed("ElevenLabs STT failed with ", status.as_str(), ": ");
                text.append(body.as_str());
                text
            },
            Error::RetainFailed { status, body } => {
                let mut text: String = framed(
                    "Hindsight retain failed with ",
                    status.as_str(),
                    ": ",
                );
                text.append(body.as_str());
                text
            },
        }
    }

    /// What lies behind the failure, where there is more to say.
    pub fn cause(&self) -> (reason: Option<String>)
        ensures
            opt_text(reason) == self@.cause(),
    {
        match self {
            Error::InvalidSelection { fault, .. } => Some(fault.describe()),
            Error::MetadataJson { reason } => Some(reason.clone()),
            Error::SocketCheckFailed { reason, .. } => Some(reason.clone()),
            Error::StaleSocketNotRemoved { reason, .. } => Some(reason.clone()),
            Error::MessageNotEncoded { reason } => Some(reason.clone()),
            _ => None,
        }
    }
}

/// The error that `record` reports when no ElevenLabs API key was found.
pub fn missing_api_key_error() -> (e: Error)
    ensures
        e@ == ErrorView::MissingApiKey,
{
    Error::MissingApiKey
}

/// What a message says of its detail: words before it, the whole detail, and words after it. The
/// words are those of the kind of failure.
pub proof fn law_messages_hold_their_details(detail: Seq<char>, more: Seq<char>, index: nat)
    ensures
        (ErrorView::MissingHindsightUrl { profile: detail }).text()
            == "MNEMO_HINDSIGHT_API_URL must be set in the environment, profile '"@ + detail
            + "' in the config file, or --hindsight-url"@,
        (ErrorView::MissingBank { profile: detail }).text()
            == "MNEMO_BANK_ID must be set in the environment, profile '"@ + detail
            + "' in the config file, or --bank"@,
        (ErrorView::ConfigExists { path: detail }).text() == "config file already exists at "@
            + detail + ". Use --force to overwrite it"@,
        (ErrorView::KeychainWriteFailed { detail }).text()
            == "/usr/bin/security failed to write keychain entry: "@ + detail,
        (ErrorView::KeychainRemoveFailed { profile: detail, detail: more }).text()
            == "no keychain entry for profile '"@ + detail + "' or deletion failed: "@ + more,
        (ErrorView::SelectionOutOfRange { index }).text() == "selection out of range: "@ + decimal(
            index,
        ),
        (ErrorView::MetadataFormat { entry: detail }).text()
            == "metadata entries must use KEY=VALUE format: "@ + detail,
        (ErrorView::AlreadyRecording { path: detail }).text()
            == "mnemo is already recording via "@ + detail,
        (ErrorView::SocketCheckFailed { path: detail, reason: more }).text()
            == "failed to check socket "@ + detail,
        (ErrorView::StaleSocketNotRemoved { path: detail, reason: more }).text()
            == "failed to remove stale socket "@ + detail,
        (ErrorView::TranscriptionFailed { status: detail, body: more }).text()
            == "ElevenLabs STT failed with "@ + detail + ": "@ + more,
        (ErrorView::RetainFailed { status: detail, body: more }).text()
            == "Hindsight retain failed with "@ + detail + ": "@ + more,
{
}

/// What lies behind a failure is the reason that was given for it.
pub proof fn law_causes_are_the_reasons(part: Seq<char>, reason: Seq<char>, fault: NumberFault)
    ensures
        (ErrorView::InvalidSelection { part, fault }).text() == "invalid selection: "@ + part,
        (ErrorView::InvalidSelection { part, fault }).cause() == Some(fault_text(fault)),
        (ErrorView::MetadataJson { reason }).cause() == Some(reason),
        (ErrorView::SocketCheckFailed { path: part, reason }).cause() == Some(reason),
        (ErrorView::StaleSocketNotRemoved { path: part, reason }).cause() == Some(reason),
        (ErrorView::MessageNotEncoded { reason }).cause() == Some(reason),
{
}

/// The views of failures hold their details, whole.
pub proof fn law_views_of_failures(detail: String, more: String, index: usize, fault: NumberFault)
    ensures
        (Error::MissingHindsightUrl { profile: detail })@ == (ErrorView::MissingHindsightUrl {
            profile: detail@,
        }),
        (Error::MissingBank { profile: detail })@ == (ErrorView::MissingBank { profile: detail@ }),
        (Error::ConfigExists { path: detail })@ == (ErrorView::ConfigExists { path: detail@ }),
        (Error::KeychainWriteFailed { detail })@ == (ErrorView::KeychainWriteFailed {
            detail: detail@,
        }),
        (Error::KeychainRemoveFailed { profile: detail, detail: more })@
            == (ErrorView::KeychainRemoveFailed { profile: detail@, detail: more@ }),
        (Error::InvalidSelection { part: detail, fault })@ == (ErrorView::InvalidSelection {
            part: detail@,
            fault,
        }),
        (Error::SelectionOutOfRange { index })@ == (ErrorView::SelectionOutOfRange {
            index: index as nat,
        }),
        (Error::MetadataFormat { entry: detail })@ == (ErrorView::MetadataFormat {
            entry: detail@,
        }),
        (Error::MetadataJson { reason: detail })@ == (ErrorView::MetadataJson { reason: detail@ }),
        (Error::AlreadyRecording { path: detail })@ == (ErrorView::AlreadyRecording {
            path: detail@,
        }),
        (Error::SocketCheckFailed { path: detail, reason: more })@
            == (ErrorView::SocketCheckFailed { path: detail@, reason: more@ }),
        (Error::StaleSocketNotRemoved { path: detail, reason: more })@
            == (ErrorView::StaleSocketNotRemoved { path: detail@, reason: more@ }),
        (Error::TranscriptionFailed { status: detail, body: more })@
            == (ErrorView::TranscriptionFailed { status: detail@, body: more@ }),
        (Error::RetainFailed { status: detail, body: more })@ == (ErrorView::RetainFailed {
            status: detail@,
            body: more@,
        }),
{
}

} // verus!
