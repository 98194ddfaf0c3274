//! The commands of the program.

use vstd::prelude::*;

use crate::keychain_session::KeychainCommand;

verus! {

/// What the user asks for.
#[derive(Clone, Copy, Debug)]
pub enum Command {
    /// Create the configuration file.
    Init { force: bool },
    /// Start recording a voice note.
    Record,
    /// Stop the recorder that is running.
    Stop,
    /// Manage the keys in the Keychain.
    Keychain { command: KeychainCommand },
}

/// The command to run: the one that was given, or else `record`.
pub fn command_to_run(given: Option<Command>) -> (command: Command)
    ensures
        command == match given {
            Some(c) => c,
            None => Command::Record,
        },
{
    match given {
        Some(command) => command,
        None => Command::Record,
    }
}

} // verus!
