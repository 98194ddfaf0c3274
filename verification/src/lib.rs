//! The decisions behind the `mnemo` voice recorder: how its settings come about, how it keeps keys
//! in the macOS Keychain, how a recording runs its course and is told to clients of its socket, and
//! what is sent to ElevenLabs and Hindsight.

pub mod command;
pub mod config;
pub mod error;
pub mod json;
pub mod keychain;
pub mod keychain_session;
pub mod metadata;
pub mod numbers;
pub mod paths;
pub mod recording;
pub mod requests;
pub mod select;
pub mod selection;
pub mod socket;
pub mod status;
pub mod text;
pub mod wav;
