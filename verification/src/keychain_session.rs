//! The `keychain` commands, step by step: what to run or to ask next, and what to print.

use vstd::prelude::*;

use crate::config::{api_key_to_sync, hindsight_api_key_to_sync, Config};
#[allow(unused_imports)]
use crate::config::{law_precedence, layered};
use crate::error::Error;
#[allow(unused_imports)]
use crate::error::ErrorView;
use crate::keychain::{
    keychain_list_args, keychain_list_entries, keychain_remove, keychain_remove_args,
    keychain_write, keychain_write_args, KeychainEntry, SecretKind,
};
#[allow(unused_imports)]
use crate::keychain::{
    entry_before, entry_views, in_order, kind_display_name, kind_name, law_sorted_form_sorts,
    lemma_sorted_form, list_arguments, listed_entries, remove_arguments, sorted_form,
    write_arguments,
};
#[allow(unused_imports)]
use crate::select::lemma_filtered;
use crate::selection::{confirmation_prompt, confirmed, keychain_menu, select_keychain_entries};
#[allow(unused_imports)]
use crate::selection::{
    law_selection_is_offered, lemma_selection_of, menu, selection_of, selection_view,
};
use crate::text::same_string;
#[allow(unused_imports)]
use crate::text::{lossy_text, opt_text, texts, trimmed};

verus! {

/// What the user wants of the Keychain.
#[derive(Clone, Copy, Debug, PartialEq, Eq, Structural)]
pub enum KeychainCommand {
    /// Store the configured keys.
    Sync,
    /// List the stored keys.
    List,
    /// Remove stored keys.
    Remove { all: bool, force: bool },
}

/// How far a command has come.
#[derive(Debug)]
pub enum KeychainState {
    /// The first of these keys is being stored.
    Storing { keys: Vec<(SecretKind, String)> },
    /// The Keychain is being listed, to print what is there.
    Listing,
    /// The Keychain is being listed, to remove what is there.
    ListingForRemoval { all: bool, force: bool },
    /// The user is asked whether all these keys are to be removed.
    Confirming { entries: Vec<KeychainEntry> },
    /// The user is asked which of these keys are to be removed.
    Choosing { entries: Vec<KeychainEntry> },
    /// The first of these keys is being removed.
    Removing { pending: Vec<KeychainEntry> },
    /// All is done.
    Finished,
    /// The command has failed.
    Failed { error: Error },
}

/// How far a command has come, as mathematical values.
pub enum KeychainStateView {
    Storing { keys: Seq<(SecretKind, Seq<char>)> },
    Listing,
    ListingForRemoval { all: bool, force: bool },
    Confirming { entries: Seq<(Seq<char>, SecretKind)> },
    Choosing { entries: Seq<(Seq<char>, SecretKind)> },
    Removing { pending: Seq<(Seq<char>, SecretKind)> },
    Finished,
    Failed { error: ErrorView },
}

/// The views of keys that are to be stored.
pub open spec fn key_views(keys: Seq<(SecretKind, String)>) -> Seq<(SecretKind, Seq<char>)> {
    keys.map_values(|k: (SecretKind, String)| (k.0, k.1@))
}

impl View for KeychainState {
    type V = KeychainStateView;

    open spec fn view(&self) -> KeychainStateView {
        match *self {
            KeychainState::Storing { keys } => KeychainStateView::Storing {
                keys: key_views(keys@),
            },
            KeychainState::Listing => KeychainStateView::Listing,
            KeychainState::ListingForRemoval { all, force } => {
                KeychainStateView::ListingForRemoval { all, force }
            },
            KeychainState::Confirming { entries } => KeychainStateView::Confirming {
                entries: entry_views(entries@),
            },
            KeychainState::Choosing { entries } => KeychainStateView::Choosing {
                entries: entry_views(entries@),
            },
            KeychainState::Removing { pending } => KeychainStateView::Removing {
                pending: entry_views(pending@),
            },
            KeychainState::Finished => KeychainStateView::Finished,
            KeychainState::Failed { error } => KeychainStateView::Failed { error: error@ },
        }
    }
}

/// What a session waits for.
#[derive(Debug)]
pub enum KeychainRequest {
    /// `security` is to be run with these arguments.
    Run { args: Vec<String> },
    /// A line of the user is to be read.
    Ask,
    /// Nothing.
    Stop,
}

/// A state, and the lines to print on the way to it.
#[derive(Debug)]
pub struct KeychainTurn {
    pub lines: Vec<String>,
    pub state: KeychainState,
}

/// A state, and the lines to print on the way to it, as mathematical values.
#[verifier::ext_equal]
pub struct KeychainTurnView {
    pub lines: Seq<Seq<char>>,
    pub state: KeychainStateView,
}

impl View for KeychainTurn {
    type V = KeychainTurnView;

    open spec fn view(&self) -> KeychainTurnView {
        KeychainTurnView { lines: texts(self.lines@), state: self.state@ }
    }
}

/// The keys that a synchronisation stores: that of ElevenLabs, then that of Hindsight, as far as
/// they are set.
pub open spec fn keys_to_store(
    elevenlabs: Option<Seq<char>>,
    hindsight: Option<Seq<char>>,
) -> Seq<(SecretKind, Seq<char>)> {
    let first = match elevenlabs {
        Some(key) => seq![(SecretKind::ElevenLabs, key)],
        None => Seq::empty(),
    };
    let second = match hindsight {
        Some(key) => seq![(SecretKind::Hindsight, key)],
        None => Seq::empty(),
    };
    first + second
}

/// The keys that the settings give to a synchronisation.
pub open spec fn configured_keys(config: Config) -> Seq<(SecretKind, Seq<char>)> {
    keys_to_store(
        layered(
            opt_text(config.cli_elevenlabs_api_key),
            opt_text(config.env_elevenlabs_api_key),
            opt_text(config.elevenlabs_api_key),
        ),
        layered(
            opt_text(config.cli_hindsight_api_key),
            opt_text(config.env_hindsight_api_key),
            opt_text(config.hindsight_api_key),
        ),
    )
}

/// Where a command begins.
pub open spec fn first_state(config: Config, command: KeychainCommand) -> KeychainStateView {
    match command {
        KeychainCommand::Sync => {
            if configured_keys(config).len() == 0 {
                KeychainStateView::Failed { error: ErrorView::NoKeysToSync }
            } else {
                KeychainStateView::Storing { keys: configured_keys(config) }
            }
        },
        KeychainCommand::List => KeychainStateView::Listing,
        KeychainCommand::Remove { all, force } => KeychainStateView::ListingForRemoval {
            all,
            force,
        },
    }
}

/// Begins a command.
pub fn handle_keychain_command(config: &Config, command: KeychainCommand) -> (state: KeychainState)
    ensures
        state@ == first_state(*config, command),
        state.in_progress() || state is Failed,
{
    match command {
        KeychainCommand::Sync => {
            let mut pending: Vec<(SecretKind, String)> = Vec::new();
            if let Some(key) = api_key_to_sync(config) {
                pending.push((SecretKind::ElevenLabs, key));
            }
            if let Some(key) = hindsight_api_key_to_sync(config) {
                pending.push((SecretKind::Hindsight, key));
            }
            assert(key_views(pending@) == configured_keys(*config));
            if pending.len() == 0 {
                KeychainState::Failed { error: Error::NoKeysToSync }
            } else {
                KeychainState::Storing { keys: pending }
            }
        },
        KeychainCommand::List => KeychainState::Listing,
        KeychainCommand::Remove { all, force } => KeychainState::ListingForRemoval { all, force },
    }
}

impl KeychainStateView {
    /// Whether something is still to be done, and it is clear what.
    pub open spec fn in_progress(self) -> bool {
        match self {
            KeychainStateView::Storing { keys } => keys.len() > 0,
            KeychainStateView::Removing { pending } => pending.len() > 0,
            KeychainStateView::Finished => false,
            KeychainStateView::Failed { .. } => false,
            _ => true,
        }
    }

    /// Whether the session waits for the user.
    pub open spec fn asks(self) -> bool {
        self is Confirming || self is Choosing
    }

    /// The arguments with which `security` is to be run, for the profile of this run.
    pub open spec fn arguments(self, profile: Seq<char>) -> Seq<Seq<char>> {
        match self {
            KeychainStateView::Storing { keys } => write_arguments(
                profile,
                keys.first().0,
                keys.first().1,
            ),
            KeychainStateView::Removing { pending } => remove_arguments(
                pending.first().0,
                pending.first().1,
            ),
            _ => list_arguments(),
        }
    }
}

impl KeychainState {
    /// Whether something is still to be done, and it is clear what.
    pub open spec fn in_progress(self) -> bool {
        self@.in_progress()
    }

    /// What the session waits for; `profile` is the profile of this run.
    pub fn request(&self, profile: &str) -> (request: KeychainRequest)
        ensures
            match request {
                KeychainRequest::Run { args } => self.in_progress() && !self@.asks() && texts(args@)
                    == self@.arguments(profile@),
                KeychainRequest::Ask => self@.asks(),
                KeychainRequest::Stop => !self.in_progress(),
            },
    {
        match self {
            KeychainState::Storing { keys } => {
                if keys.len() == 0 {
                    return KeychainRequest::Stop;
                }
                assert(key_views(keys@)[0] == (keys@[0].0, keys@[0].1@));
                KeychainRequest::Run {
                    args: keychain_write_args(profile, keys[0].0, keys[0].1.as_str()),
                }
            },
            KeychainState::Removing { pending } => {
                if pending.len() == 0 {
                    return KeychainRequest::Stop;
                }
                assert(entry_views(pending@)[0] == pending@[0]@);
                KeychainRequest::Run {
                    args: keychain_remove_args(pending[0].profile.as_str(), pending[0].kind),
                }
            },
            KeychainState::Listing => KeychainRequest::Run { args: keychain_list_args() },
            KeychainState::ListingForRemoval { .. } => KeychainRequest::Run {
                args: keychain_list_args(),
            },
            KeychainState::Confirming { .. } => KeychainRequest::Ask,
            KeychainState::Choosing { .. } => KeychainRequest::Ask,
            KeychainState::Finished => KeychainRequest::Stop,
            KeychainState::Failed { .. } => KeychainRequest::Stop,
        }
    }
}

/// How a run of `security` ended.
pub struct SecurityOutput {
    pub success: bool,
    pub stdout: Vec<u8>,
    pub stderr: Vec<u8>,
}

/// The line that reports a stored key.
pub open spec fn stored_line(profile: Seq<char>, kind: SecretKind) -> Seq<char> {
    "Stored "@ + kind_display_name(kind) + " API key for profile '"@ + profile
        + "' in macOS Keychain."@
}

/// The line that reports a removed key.
pub open spec fn removed_line(e: (Seq<char>, SecretKind)) -> Seq<char> {
    "Removed "@ + kind_display_name(e.1) + " API key for profile '"@ + e.0 + "'."@
}

/// The line that lists a key.
pub open spec fn listed_line(e: (Seq<char>, SecretKind)) -> Seq<char> {
    e.0 + " "@ + kind_name(e.1)
}

/// The line for a Keychain without keys.
pub open spec fn nothing_line() -> Seq<char> {
    "No mnemo API keys found in macOS Keychain."@
}

/// A turn that prints one line.
pub open spec fn saying(line: Seq<char>, state: KeychainStateView) -> KeychainTurnView {
    KeychainTurnView { lines: seq![line], state }
}

/// A turn that prints nothing.
pub open spec fn silently(state: KeychainStateView) -> KeychainTurnView {
    KeychainTurnView { lines: Seq::empty(), state }
}

/// Storing the keys that are left.
pub open spec fn store_rest(keys: Seq<(SecretKind, Seq<char>)>) -> KeychainStateView {
    if keys.len() == 0 {
        KeychainStateView::Finished
    } else {
        KeychainStateView::Storing { keys }
    }
}

/// Removing the keys that are left.
pub open spec fn remove_rest(pending: Seq<(Seq<char>, SecretKind)>) -> KeychainStateView {
    if pending.len() == 0 {
        KeychainStateView::Finished
    } else {
        KeychainStateView::Removing { pending }
    }
}

/// Removing the keys that were settled on; none means that the user cancelled.
pub open spec fn remove_or_cancel(chosen: Seq<(Seq<char>, SecretKind)>) -> KeychainTurnView {
    if chosen.len() == 0 {
        saying("Cancelled."@, KeychainStateView::Finished)
    } else {
        silently(KeychainStateView::Removing { pending: chosen })
    }
}

/// Which entries are those of a profile.
pub open spec fn in_profile(profile: Seq<char>) -> spec_fn((Seq<char>, SecretKind)) -> bool {
    |e: (Seq<char>, SecretKind)| e.0 == profile
}

/// The entries of a profile.
pub open spec fn of_profile(
    entries: Seq<(Seq<char>, SecretKind)>,
    profile: Seq<char>,
) -> Seq<(Seq<char>, SecretKind)> {
    entries.filter(in_profile(profile))
}

/// How a removal goes on once it is known what is there.
pub open spec fn removal_of(
    entries: Seq<(Seq<char>, SecretKind)>,
    profile: Seq<char>,
    all: bool,
    force: bool,
) -> KeychainTurnView {
    if entries.len() == 0 {
        saying(nothing_line(), KeychainStateView::Finished)
    } else if all && force {
        silently(KeychainStateView::Removing { pending: entries })
    } else if all {
        saying(
            "Remove all mnemo API keys from macOS Keychain? Type 'yes' to continue:"@,
            KeychainStateView::Confirming { entries },
        )
    } else if force {
        remove_or_cancel(of_profile(entries, profile))
    } else {
        KeychainTurnView { lines: menu(entries), state: KeychainStateView::Choosing { entries } }
    }
}

/// How a command goes on after a run of `security`; `profile` is the profile of this run.
pub open spec fn after_run(
    state: KeychainStateView,
    profile: Seq<char>,
    success: bool,
    stdout: Seq<u8>,
    stderr: Seq<u8>,
) -> KeychainTurnView {
    let found = sorted_form(listed_entries(lossy_text(stdout)));
    let said = trimmed(lossy_text(stderr));
    match state {
        KeychainStateView::Storing { keys } => {
            if success {
                saying(stored_line(profile, keys.first().0), store_rest(keys.drop_first()))
            } else {
                silently(
                    KeychainStateView::Failed {
                        error: ErrorView::KeychainWriteFailed { detail: said },
                    },
                )
            }
        },
        KeychainStateView::Removing { pending } => {
            if success {
                saying(removed_line(pending.first()), remove_rest(pending.drop_first()))
            } else {
                silently(
                    KeychainStateView::Failed {
                        error: ErrorView::KeychainRemoveFailed {
                            profile: pending.first().0,
                            detail: said,
                        },
                    },
                )
            }
        },
        KeychainStateView::Listing if success => {
            if found.len() == 0 {
                saying(nothing_line(), KeychainStateView::Finished)
            } else {
                KeychainTurnView {
                    lines: found.map_values(|e: (Seq<char>, SecretKind)| listed_line(e)),
                    state: KeychainStateView::Finished,
                }
            }
        },
        KeychainStateView::ListingForRemoval { all, force } if success => removal_of(
            found,
            profile,
            all,
            force,
        ),
        _ => silently(KeychainStateView::Failed { error: ErrorView::KeychainListFailed }),
    }
}

/// How a command goes on after an answer of the user.
pub open spec fn after_answer(state: KeychainStateView, answer: Seq<char>) -> KeychainTurnView {
    match state {
        KeychainStateView::Confirming { entries } if trimmed(answer) == "yes"@ => silently(
            remove_rest(entries),
        ),
        KeychainStateView::Choosing { entries } => match selection_of(answer, entries) {
            Ok(chosen) => remove_or_cancel(chosen),
            Err(error) => silently(KeychainStateView::Failed { error }),
        },
        _ => saying("Cancelled."@, KeychainStateView::Finished),
    }
}

fn say(line: String, state: KeychainState) -> (turn: KeychainTurn)
    ensures
        turn@ == saying(line@, state@),
{
    let mut lines: Vec<String> = Vec::new();
    lines.push(line);
    assert(texts(lines@) == seq![line@]);
    KeychainTurn { lines, state }
}

fn silent(state: KeychainState) -> (turn: KeychainTurn)
    ensures
        turn@ == silently(state@),
{
    let lines: Vec<String> = Vec::new();
    assert(texts(lines@) == Seq::<Seq<char>>::empty());
    KeychainTurn { lines, state }
}

fn remove_chosen(chosen: Vec<KeychainEntry>) -> (turn: KeychainTurn)
    ensures
        turn@ == remove_or_cancel(entry_views(chosen@)),
{
    if chosen.len() == 0 {
        say("Cancelled.".to_owned(), KeychainState::Finished)
    } else {
        silent(KeychainState::Removing { pending: chosen })
    }
}

fn entries_of_profile(entries: &Vec<KeychainEntry>, profile: &str) -> (kept: Vec<KeychainEntry>)
    ensures
        entry_views(kept@) == of_profile(entry_views(entries@), profile@),
{
    let ghost all: Seq<(Seq<char>, SecretKind)> = entry_views(entries@);
    let ghost pred = in_profile(profile@);
    let mut kept: Vec<KeychainEntry> = Vec::new();
    let mut i: usize = 0;
    proof {
        reveal(Seq::filter);
        assert(all.take(0) == Seq::<(Seq<char>, SecretKind)>::empty());
        assert(entry_views(kept@) == Seq::<(Seq<char>, SecretKind)>::empty());
    }
    while i < entries.len()
        invariant
            i <= entries.len(),
            all == entry_views(entries@),
            pred == in_profile(profile@),
            entry_views(kept@) == all.take(i as int).filter(pred),
        decreases entries.len() - i,
    {
        let ghost before: Seq<KeychainEntry> = kept@;
        proof {
            reveal(Seq::filter);
            assert(all.take(i + 1).drop_last() == all.take(i as int));
            assert(all.take(i + 1).last() == entries@[i as int]@);
        }
        if same_string(entries[i].profile.as_str(), profile) {
            kept.push(entries[i].copy());
            assert(entry_views(kept@) == entry_views(before).push(entries@[i as int]@));
        }
        i += 1;
    }
    assert(all.take(i as int) == all);
    kept
}

fn listing_lines(entries: &Vec<KeychainEntry>) -> (lines: Vec<String>)
    ensures
        texts(lines@) == entry_views(entries@).map_values(
            |e: (Seq<char>, SecretKind)| listed_line(e),
        ),
{
    let ghost wanted: Seq<Seq<char>> = entry_views(entries@).map_values(
        |e: (Seq<char>, SecretKind)| listed_line(e),
    );
    let mut lines: Vec<String> = Vec::new();
    let mut i: usize = 0;
    while i < entries.len()
        invariant
            i <= entries.len(),
            wanted == entry_views(entries@).map_values(
                |e: (Seq<char>, SecretKind)| listed_line(e),
            ),
            texts(lines@) == wanted.take(i as int),
        decreases entries.len() - i,
    {
        let ghost before: Seq<String> = lines@;
        let mut line: String = entries[i].profile.clone();
        line.append(" ");
        line.append(entries[i].kind.name());
        lines.push(line);
        i += 1;
        assert(texts(lines@) == texts(before).push(wanted[i - 1]));
        assert(wanted.take(i as int) == wanted.take(i - 1).push(wanted[i - 1]));
    }
    assert(wanted.take(i as int) == wanted);
    lines
}

fn continue_removal(entries: Vec<KeychainEntry>, profile: &str, all: bool, force: bool) -> (turn:
    KeychainTurn)
    ensures
        turn@ == removal_of(entry_views(entries@), profile@, all, force),
{
    if entries.len() == 0 {
        return say(
            "No mnemo API keys found in macOS Keychain.".to_owned(),
            KeychainState::Finished,
        );
    }
    if all {
        if force {
            return silent(KeychainState::Removing { pending: entries });
        }
        let question: String = confirmation_prompt(
            "Remove all mnemo API keys from macOS Keychain?",
        );
        proof {
            reveal_strlit("Remove all mnemo API keys from macOS Keychain?");
            reveal_strlit(" Type 'yes' to continue:");
            reveal_strlit("Remove all mnemo API keys from macOS Keychain? Type 'yes' to continue:");
            assert("Remove all mnemo API keys from macOS Keychain?"@ + " Type 'yes' to continue:"@
                == "Remove all mnemo API keys from macOS Keychain? Type 'yes' to continue:"@);
        }
        return say(question, KeychainState::Confirming { entries });
    }
    if force {
        return remove_chosen(entries_of_profile(&entries, profile));
    }
    KeychainTurn { lines: keychain_menu(&entries), state: KeychainState::Choosing { entries } }
}

impl KeychainState {
    /// Goes on after the run of `security` that was requested; `profile` is the profile of this
    /// run.
    pub fn security_finished(self, profile: &str, output: SecurityOutput) -> (turn: KeychainTurn)
        requires
            self.in_progress(),
            !self@.asks(),
        ensures
            turn@ == after_run(
                self@,
                profile@,
                output.success,
                output.stdout@,
                output.stderr@,
            ),
    {
        match self {
            KeychainState::Storing { keys } => {
                let mut rest: Vec<(SecretKind, String)> = keys;
                if let Err(error) = keychain_write(output.success, output.stderr.as_slice()) {
                    return silent(KeychainState::Failed { error });
                }
                let ghost before: Seq<(SecretKind, String)> = rest@;
                let (kind, _) = rest.remove(0);
                assert(key_views(before)[0].0 == kind);
                assert(key_views(rest@) == key_views(before).drop_first());
                let mut line: String = "Stored ".to_owned();
                line.append(kind.display_name());
                line.append(" API key for profile '");
                line.append(profile);
                line.append("' in macOS Keychain.");
                if rest.len() == 0 {
                    say(line, KeychainState::Finished)
                } else {
                    say(line, KeychainState::Storing { keys: rest })
                }
            },
            KeychainState::Removing { pending } => {
                let mut rest: Vec<KeychainEntry> = pending;
                let ghost before: Seq<KeychainEntry> = rest@;
                assert(entry_views(before)[0] == before[0]@);
                if let Err(error) = keychain_remove(
                    rest[0].profile.as_str(),
                    output.success,
                    output.stderr.as_slice(),
                ) {
                    return silent(KeychainState::Failed { error });
                }
                let removed: KeychainEntry = rest.remove(0);
                assert(entry_views(rest@) == entry_views(before).drop_first());
                let mut line: String = "Removed ".to_owned();
                line.append(removed.kind.display_name());
                line.append(" API key for profile '");
                line.append(removed.profile.as_str());
                line.append("'.");
                if rest.len() == 0 {
                    say(line, KeychainState::Finished)
                } else {
                    say(line, KeychainState::Removing { pending: rest })
                }
            },
            KeychainState::ListingForRemoval { all, force } => {
                match keychain_list_entries(output.success, output.stdout.as_slice()) {
                    Ok(entries) => {
                        proof {
                            lemma_sorted_form(
                                entry_views(entries@),
                                listed_entries(lossy_text(output.stdout@)),
                            );
                        }
                        continue_removal(entries, profile, all, force)
                    },
                    Err(error) => silent(KeychainState::Failed { error }),
                }
            },
            _ => {
                match keychain_list_entries(output.success, output.stdout.as_slice()) {
                    Ok(entries) => {
                        proof {
                            lemma_sorted_form(
                                entry_views(entries@),
                                listed_entries(lossy_text(output.stdout@)),
                            );
                        }
                        if entries.len() == 0 {
                            return say(
                                "No mnemo API keys found in macOS Keychain.".to_owned(),
                                KeychainState::Finished,
                            );
                        }
                        KeychainTurn {
                            lines: listing_lines(&entries),
                            state: KeychainState::Finished,
                        }
                    },
                    Err(error) => silent(KeychainState::Failed { error }),
                }
            },
        }
    }

    /// Goes on after the user's answer.
    pub fn answered(self, answer: &str) -> (turn: KeychainTurn)
        requires
            self@.asks(),
        ensures
            turn@ == after_answer(self@, answer@),
    {
        match self {
            KeychainState::Confirming { entries } => {
                if confirmed(answer) {
                    if entries.len() == 0 {
                        return silent(KeychainState::Finished);
                    }
                    silent(KeychainState::Removing { pending: entries })
                } else {
                    say("Cancelled.".to_owned(), KeychainState::Finished)
                }
            },
            KeychainState::Choosing { entries } => {
                let selected: Result<Vec<KeychainEntry>, Error> = select_keychain_entries(
                    answer,
                    &entries,
                );
                proof {
                    lemma_selection_of(answer@, entry_views(entries@), selection_view(selected));
                }
                match selected {
                    Ok(chosen) => remove_chosen(chosen),
                    Err(error) => silent(KeychainState::Failed { error }),
                }
            },
            _ => say("Cancelled.".to_owned(), KeychainState::Finished),
        }
    }
}

impl KeychainStateView {
    /// How many kinds of step are left at most.
    pub open spec fn stage(self) -> nat {
        match self {
            KeychainStateView::ListingForRemoval { .. } => 3,
            KeychainStateView::Confirming { .. } => 2,
            KeychainStateView::Choosing { .. } => 2,
            KeychainStateView::Storing { .. } => 1,
            KeychainStateView::Removing { .. } => 1,
            KeychainStateView::Listing => 1,
            KeychainStateView::Finished => 0,
            KeychainStateView::Failed { .. } => 0,
        }
    }

    /// How many steps of the present kind are left.
    pub open spec fn left(self) -> nat {
        match self {
            KeychainStateView::Storing { keys } => keys.len(),
            KeychainStateView::Removing { pending } => pending.len(),
            _ => 0,
        }
    }

    /// Whether the session is in progress or over.
    pub open spec fn valid(self) -> bool {
        self.in_progress() || self is Finished || self is Failed
    }

    /// Whether `self` is closer to the end than `other`.
    pub open spec fn closer_than(self, other: KeychainStateView) -> bool {
        ||| self.stage() < other.stage()
        ||| self.stage() == other.stage() && self.left() < other.left()
    }
}

/// Every turn brings a session closer to its end, and leaves it in progress or over.
pub proof fn law_sessions_end(
    state: KeychainStateView,
    profile: Seq<char>,
    success: bool,
    stdout: Seq<u8>,
    stderr: Seq<u8>,
    answer: Seq<char>,
)
    requires
        state.in_progress(),
    ensures
        !state.asks() ==> ({
            let next = after_run(state, profile, success, stdout, stderr).state;
            next.valid() && next.closer_than(state)
        }),
        state.asks() ==> ({
            let next = after_answer(state, answer).state;
            next.valid() && next.closer_than(state)
        }),
{
}

/// A key is removed only where it is listed, and a forced removal that is not of all keys removes
/// only keys of the profile of this run.
pub proof fn law_forced_removal_is_confined(
    entries: Seq<(Seq<char>, SecretKind)>,
    profile: Seq<char>,
    all: bool,
    force: bool,
    e: (Seq<char>, SecretKind),
)
    requires
        removal_of(entries, profile, all, force).state is Removing,
        removal_of(entries, profile, all, force).state->pending.contains(e),
    ensures
        force,
        entries.contains(e),
        !all ==> e.0 == profile,
{
    if !all {
        lemma_filtered(entries, in_profile(profile), e);
    }
}

/// Without force, a key is removed only after the user said so: `yes` to the question about all
/// keys, or an answer to the menu that selects it.
pub proof fn law_removal_needs_consent(
    state: KeychainStateView,
    answer: Seq<char>,
    e: (Seq<char>, SecretKind),
)
    requires
        state.asks(),
        after_answer(state, answer).state is Removing,
        after_answer(state, answer).state->pending.contains(e),
    ensures
        state is Confirming ==> trimmed(answer) == "yes"@ && state->Confirming_entries.contains(e),
        state is Choosing ==> selection_of(answer, state->Choosing_entries) is Ok && selection_of(
            answer,
            state->Choosing_entries,
        )->Ok_0.contains(e) && state->Choosing_entries.contains(e),
{
    if state is Choosing {
        law_selection_is_offered(answer, state->Choosing_entries, e);
    }
}

/// The commands that a synchronisation or a removal runs when each one succeeds: one for each key,
/// in turn.
pub open spec fn commands_of(
    state: KeychainStateView,
    profile: Seq<char>,
) -> Seq<Seq<Seq<char>>>
    decreases state.left(),
{
    if (state is Storing || state is Removing) && state.in_progress() {
        seq![state.arguments(profile)] + commands_of(
            after_run(state, profile, true, Seq::empty(), Seq::empty()).state,
            profile,
        )
    } else {
        Seq::empty()
    }
}

/// A synchronisation whose commands succeed stores every key, in order.
pub proof fn law_every_key_is_stored(
    keys: Seq<(SecretKind, Seq<char>)>,
    profile: Seq<char>,
)
    ensures
        commands_of(KeychainStateView::Storing { keys }, profile) == Seq::new(
            keys.len(),
            |i: int| write_arguments(profile, keys[i].0, keys[i].1),
        ),
    decreases keys.len(),
{
    let state = KeychainStateView::Storing { keys };
    if keys.len() > 0 {
        let rest = keys.drop_first();
        law_every_key_is_stored(rest, profile);
        let next = after_run(state, profile, true, Seq::empty(), Seq::empty()).state;
        if rest.len() == 0 {
            assert(commands_of(next, profile) == Seq::<Seq<Seq<char>>>::empty());
        }
        assert(commands_of(state, profile) == Seq::new(
            keys.len(),
            |i: int| write_arguments(profile, keys[i].0, keys[i].1),
        ));
    }
}

/// A removal whose commands succeed removes every key that was settled on, in order.
pub proof fn law_every_chosen_key_is_removed(
    pending: Seq<(Seq<char>, SecretKind)>,
    profile: Seq<char>,
)
    ensures
        commands_of(KeychainStateView::Removing { pending }, profile) == Seq::new(
            pending.len(),
            |i: int| remove_arguments(pending[i].0, pending[i].1),
        ),
    decreases pending.len(),
{
    let state = KeychainStateView::Removing { pending };
    if pending.len() > 0 {
        let rest = pending.drop_first();
        law_every_chosen_key_is_removed(rest, profile);
        let next = after_run(state, profile, true, Seq::empty(), Seq::empty()).state;
        if rest.len() == 0 {
            assert(commands_of(next, profile) == Seq::<Seq<Seq<char>>>::empty());
        }
        assert(commands_of(state, profile) == Seq::new(
            pending.len(),
            |i: int| remove_arguments(pending[i].0, pending[i].1),
        ));
    }
}

/// The keys that a session is about to store.
pub open spec fn keys_being_stored(state: KeychainStateView) -> Seq<(SecretKind, Seq<char>)> {
    match state {
        KeychainStateView::Storing { keys } => keys,
        _ => Seq::empty(),
    }
}

/// Whether the key of a kind among those to be stored is the one that precedence demands: that of
/// the flag if it is given, otherwise that of the variable if it is given, otherwise that of the
/// profile if it is given, otherwise none.
pub open spec fn stores_by_precedence(
    keys: Seq<(SecretKind, Seq<char>)>,
    kind: SecretKind,
    flag: Option<String>,
    variable: Option<String>,
    profile: Option<String>,
) -> bool {
    let in_flag = flag is Some && flag->0@.len() > 0;
    let in_variable = variable is Some && variable->0@.len() > 0;
    let in_profile = profile is Some && profile->0@.len() > 0;
    &&& in_flag ==> forall|k: Seq<char>| #[trigger]
        keys.contains((kind, k)) <==> k == flag->0@
    &&& !in_flag && in_variable ==> forall|k: Seq<char>| #[trigger]
        keys.contains((kind, k)) <==> k == variable->0@
    &&& !in_flag && !in_variable && in_profile ==> forall|k: Seq<char>| #[trigger]
        keys.contains((kind, k)) <==> k == profile->0@
    &&& !in_flag && !in_variable && !in_profile ==> forall|k: Seq<char>|
        !#[trigger] keys.contains((kind, k))
}

/// What one or two keys contain.
proof fn lemma_keys_to_store(elevenlabs: Option<Seq<char>>, hindsight: Option<Seq<char>>)
    ensures
        ({
            let keys = keys_to_store(elevenlabs, hindsight);
            &&& forall|k: Seq<char>| #[trigger]
                keys.contains((SecretKind::ElevenLabs, k)) <==> elevenlabs == Some(k)
            &&& forall|k: Seq<char>| #[trigger]
                keys.contains((SecretKind::Hindsight, k)) <==> hindsight == Some(k)
        }),
{
    let keys = keys_to_store(elevenlabs, hindsight);
    assert forall|k: Seq<char>| #[trigger]
        keys.contains((SecretKind::ElevenLabs, k)) <==> elevenlabs == Some(k) by {
        if elevenlabs == Some(k) {
            assert(keys[0] == (SecretKind::ElevenLabs, k));
        }
    }
    assert forall|k: Seq<char>| #[trigger]
        keys.contains((SecretKind::Hindsight, k)) <==> hindsight == Some(k) by {
        if hindsight == Some(k) {
            assert(keys[keys.len() - 1] == (SecretKind::Hindsight, k));
        }
    }
}

/// A synchronisation stores, of each kind, the key that precedence demands, that of ElevenLabs
/// first; it fails for want of keys if and only if there is none of either kind.
pub proof fn law_sync_stores_by_precedence(config: Config)
    ensures
        ({
            let state = first_state(config, KeychainCommand::Sync);
            let keys = keys_being_stored(state);
            &&& stores_by_precedence(
                keys,
                SecretKind::ElevenLabs,
                config.cli_elevenlabs_api_key,
                config.env_elevenlabs_api_key,
                config.elevenlabs_api_key,
            )
            &&& stores_by_precedence(
                keys,
                SecretKind::Hindsight,
                config.cli_hindsight_api_key,
                config.env_hindsight_api_key,
                config.hindsight_api_key,
            )
            &&& keys.len() <= 2
            &&& keys.len() == 2 ==> keys[0].0 == SecretKind::ElevenLabs && keys[1].0
                == SecretKind::Hindsight
            &&& keys.len() > 0 ==> state == (KeychainStateView::Storing { keys })
            &&& keys.len() == 0 ==> state == (KeychainStateView::Failed {
                error: ErrorView::NoKeysToSync,
            })
        }),
{
    let elevenlabs = layered(
        opt_text(config.cli_elevenlabs_api_key),
        opt_text(config.env_elevenlabs_api_key),
        opt_text(config.elevenlabs_api_key),
    );
    let hindsight = layered(
        opt_text(config.cli_hindsight_api_key),
        opt_text(config.env_hindsight_api_key),
        opt_text(config.hindsight_api_key),
    );
    law_precedence(
        opt_text(config.cli_elevenlabs_api_key),
        opt_text(config.env_elevenlabs_api_key),
        opt_text(config.elevenlabs_api_key),
        Seq::empty(),
    );
    law_precedence(
        opt_text(config.cli_hindsight_api_key),
        opt_text(config.env_hindsight_api_key),
        opt_text(config.hindsight_api_key),
        Seq::empty(),
    );
    lemma_keys_to_store(elevenlabs, hindsight);
    assert(configured_keys(config) == keys_to_store(elevenlabs, hindsight));
}

/// Listing and removing begin with a listing of the Keychain.
pub proof fn law_other_commands_begin_with_a_listing(
    config: Config,
    all: bool,
    force: bool,
    profile: Seq<char>,
)
    ensures
        ({
            let listing = first_state(config, KeychainCommand::List);
            let removing = first_state(config, KeychainCommand::Remove { all, force });
            &&& listing == KeychainStateView::Listing
            &&& removing == (KeychainStateView::ListingForRemoval { all, force })
            &&& listing.arguments(profile) == seq!["dump-keychain"@]
            &&& removing.arguments(profile) == seq!["dump-keychain"@]
        }),
{
}

/// A run of `security` that failed ends the command: nothing is printed, and the error is that of
/// what was being done.
pub proof fn law_a_failed_run_ends_the_command(
    state: KeychainStateView,
    profile: Seq<char>,
    stdout: Seq<u8>,
    stderr: Seq<u8>,
)
    requires
        state.in_progress(),
        !state.asks(),
    ensures
        ({
            let turn = after_run(state, profile, false, stdout, stderr);
            &&& turn.lines.len() == 0
            &&& turn.state is Failed
            &&& state is Storing ==> turn.state->error == (ErrorView::KeychainWriteFailed {
                detail: trimmed(lossy_text(stderr)),
            })
            &&& state is Removing ==> turn.state->error == (ErrorView::KeychainRemoveFailed {
                profile: state->pending[0].0,
                detail: trimmed(lossy_text(stderr)),
            })
            &&& state is Listing || state is ListingForRemoval ==> turn.state->error
                == ErrorView::KeychainListFailed
        }),
{
}

/// A key that was stored or removed is reported with its service and its profile, and the keys
/// after it are next.
pub proof fn law_a_step_is_reported(
    keys: Seq<(SecretKind, Seq<char>)>,
    pending: Seq<(Seq<char>, SecretKind)>,
    profile: Seq<char>,
    stdout: Seq<u8>,
    stderr: Seq<u8>,
)
    requires
        keys.len() > 0,
        pending.len() > 0,
    ensures
        ({
            let turn = after_run(
                KeychainStateView::Storing { keys },
                profile,
                true,
                stdout,
                stderr,
            );
            let service = if keys[0].0 == SecretKind::ElevenLabs {
                "ElevenLabs"@
            } else {
                "Hindsight"@
            };
            &&& turn.lines == seq![
                "Stored "@ + service + " API key for profile '"@ + profile
                    + "' in macOS Keychain."@,
            ]
            &&& keys.len() == 1 ==> turn.state is Finished
            &&& keys.len() > 1 ==> turn.state == (KeychainStateView::Storing { keys: keys.skip(1) })
        }),
        ({
            let turn = after_run(
                KeychainStateView::Removing { pending },
                profile,
                true,
                stdout,
                stderr,
            );
            let service = if pending[0].1 == SecretKind::ElevenLabs {
                "ElevenLabs"@
            } else {
                "Hindsight"@
            };
            &&& turn.lines == seq![
                "Removed "@ + service + " API key for profile '"@ + pending[0].0 + "'."@,
            ]
            &&& pending.len() == 1 ==> turn.state is Finished
            &&& pending.len() > 1 ==> turn.state == (KeychainStateView::Removing {
                pending: pending.skip(1),
            })
        }),
{
    assert(keys.drop_first() == keys.skip(1));
    assert(pending.drop_first() == pending.skip(1));
}

/// `list` prints one line for each key that the listing holds, in order: its profile, a space, and
/// the name of its service. Without keys it says so.
pub proof fn law_list_prints_every_key(profile: Seq<char>, stdout: Seq<u8>, stderr: Seq<u8>)
    ensures
        ({
            let found = sorted_form(listed_entries(lossy_text(stdout)));
            let turn = after_run(KeychainStateView::Listing, profile, true, stdout, stderr);
            &&& turn.state is Finished
            &&& found.len() == 0 ==> turn.lines == seq![
                "No mnemo API keys found in macOS Keychain."@,
            ]
            &&& found.len() > 0 ==> turn.lines.len() == found.len() && forall|i: int|
                0 <= i < found.len() ==> #[trigger] turn.lines[i] == found[i].0 + " "@ + (
                if found[i].1 == SecretKind::ElevenLabs {
                    "elevenlabs"@
                } else {
                    "hindsight"@
                })
        }),
{
}

/// What a filter keeps is what meets its condition.
proof fn lemma_kept_by_filter<A>(s: Seq<A>, pred: spec_fn(A) -> bool, a: A)
    requires
        s.contains(a),
        pred(a),
    ensures
        s.filter(pred).contains(a),
    decreases s.len(),
{
    reveal(Seq::filter);
    let i = choose|i: int| 0 <= i < s.len() && s[i] == a;
    let front = s.drop_last();
    if i < front.len() {
        assert(front[i] == a);
        lemma_kept_by_filter(front, pred, a);
        let k = choose|k: int| 0 <= k < front.filter(pred).len() && front.filter(pred)[k] == a;
        assert(s.filter(pred)[k] == a);
    } else {
        assert(s.filter(pred)[s.filter(pred).len() - 1] == a);
    }
}

/// What a filter keeps stays in order.
proof fn lemma_filter_keeps_order(
    s: Seq<(Seq<char>, SecretKind)>,
    pred: spec_fn((Seq<char>, SecretKind)) -> bool,
)
    requires
        in_order(s),
    ensures
        in_order(s.filter(pred)),
    decreases s.len(),
{
    reveal(Seq::filter);
    if s.len() > 0 {
        let front = s.drop_last();
        let f = front.filter(pred);
        let all = s.filter(pred);
        assert forall|i: int, j: int| 0 <= i < j < front.len() implies entry_before(
            #[trigger] front[i],
            #[trigger] front[j],
        ) by {
            assert(entry_before(s[i], s[j]));
        }
        lemma_filter_keeps_order(front, pred);
        assert forall|i: int, j: int| 0 <= i < j < all.len() implies entry_before(
            #[trigger] all[i],
            #[trigger] all[j],
        ) by {
            if j < f.len() {
                assert(entry_before(f[i], f[j]));
            } else {
                assert(f.contains(f[i]));
                lemma_filtered(front, pred, f[i]);
                let k = choose|k: int| 0 <= k < front.len() && front[k] == f[i];
                assert(entry_before(s[k], s[s.len() - 1]));
            }
        }
    }
}

/// How a removal goes on, by what the user asked for: without keys it ends; `--all --force` removes
/// every key; `--all` asks about every key; `--force` removes exactly the keys of the profile, in
/// order, and ends where there is none; otherwise the user chooses among all keys.
pub proof fn law_removal_plan(
    entries: Seq<(Seq<char>, SecretKind)>,
    profile: Seq<char>,
    all: bool,
    force: bool,
)
    requires
        in_order(entries),
    ensures
        ({
            let turn = removal_of(entries, profile, all, force);
            let found = exists|e: (Seq<char>, SecretKind)| #[trigger]
                entries.contains(e) && e.0 == profile;
            &&& entries.len() == 0 ==> turn.state is Finished && turn.lines == seq![
                "No mnemo API keys found in macOS Keychain."@,
            ]
            &&& entries.len() > 0 && all && force ==> turn.state == (KeychainStateView::Removing {
                pending: entries,
            }) && turn.lines.len() == 0
            &&& entries.len() > 0 && all && !force ==> turn.state
                == (KeychainStateView::Confirming { entries }) && turn.lines == seq![
                "Remove all mnemo API keys from macOS Keychain? Type 'yes' to continue:"@,
            ]
            &&& entries.len() > 0 && !all && !force ==> turn.state
                == (KeychainStateView::Choosing { entries }) && turn.lines == menu(entries)
            &&& entries.len() > 0 && !all && force && found ==> {
                &&& turn.state is Removing
                &&& turn.lines.len() == 0
                &&& in_order(turn.state->pending)
                &&& forall|e: (Seq<char>, SecretKind)| #[trigger]
                    turn.state->pending.contains(e) <==> entries.contains(e) && e.0 == profile
            }
            &&& entries.len() > 0 && !all && force && !found ==> turn.state is Finished
                && turn.lines == seq!["Cancelled."@]
        }),
{
    let pending = of_profile(entries, profile);
    assert forall|e: (Seq<char>, SecretKind)| #[trigger] pending.contains(e) <==> entries.contains(
        e,
    ) && e.0 == profile by {
        if pending.contains(e) {
            lemma_filtered(entries, in_profile(profile), e);
        }
        if entries.contains(e) && e.0 == profile {
            lemma_kept_by_filter(entries, in_profile(profile), e);
        }
    }
    lemma_filter_keeps_order(entries, in_profile(profile));
    if pending.len() > 0 {
        assert(pending.contains(pending[0]));
        assert(entries.contains(pending[0]));
    }
    if exists|e: (Seq<char>, SecretKind)| #[trigger] entries.contains(e) && e.0 == profile {
        let e = choose|e: (Seq<char>, SecretKind)| #[trigger]
            entries.contains(e) && e.0 == profile;
        assert(pending.contains(e));
    }
}

/// What an answer brings about: `yes` removes every key that was asked about, and nothing else
/// does; a selection removes exactly the selected keys, an empty one none, and a bad one ends the
/// command.
pub proof fn law_what_an_answer_brings_about(
    entries: Seq<(Seq<char>, SecretKind)>,
    answer: Seq<char>,
)
    requires
        entries.len() > 0,
    ensures
        ({
            let turn = after_answer(KeychainStateView::Confirming { entries }, answer);
            &&& trimmed(answer) == "yes"@ ==> turn.state == (KeychainStateView::Removing {
                pending: entries,
            })
            &&& trimmed(answer) != "yes"@ ==> turn.state is Finished && turn.lines == seq![
                "Cancelled."@,
            ]
        }),
        ({
            let turn = after_answer(KeychainStateView::Choosing { entries }, answer);
            let chosen = selection_of(answer, entries);
            &&& chosen is Ok && chosen->Ok_0.len() > 0 ==> turn.state
                == (KeychainStateView::Removing { pending: chosen->Ok_0 })
            &&& chosen is Ok && chosen->Ok_0.len() == 0 ==> turn.state is Finished && turn.lines
                == seq!["Cancelled."@]
            &&& chosen is Err ==> turn.state == (KeychainStateView::Failed {
                error: chosen->Err_0,
            })
        }),
{
}

/// The views of the keys to store are their kinds and texts, one by one.
pub proof fn law_views_of_keys(keys: Seq<(SecretKind, String)>)
    ensures
        key_views(keys).len() == keys.len(),
        forall|i: int|
            0 <= i < keys.len() ==> #[trigger] key_views(keys)[i] == (keys[i].0, keys[i].1@),
{
}

/// A removal goes on with the keys that the listing holds, each one once and in order, for the
/// profile of the run and as the user asked.
pub proof fn law_removal_follows_the_listing(
    profile: Seq<char>,
    all: bool,
    force: bool,
    stdout: Seq<u8>,
    stderr: Seq<u8>,
)
    ensures
        ({
            let found = sorted_form(listed_entries(lossy_text(stdout)));
            let turn = after_run(
                KeychainStateView::ListingForRemoval { all, force },
                profile,
                true,
                stdout,
                stderr,
            );
            &&& in_order(found)
            &&& turn == removal_of(found, profile, all, force)
        }),
{
    law_sorted_form_sorts(listed_entries(lossy_text(stdout)));
}

/// What a session waits for: for the user while it asks or offers, for nothing once it is over or
/// no key is left, and otherwise for `security`.
pub proof fn law_what_a_session_waits_for(state: KeychainStateView)
    ensures
        state.asks() <==> state is Confirming || state is Choosing,
        state.in_progress() <==> {
            ||| state is Storing && state->keys.len() > 0
            ||| state is Removing && state->pending.len() > 0
            ||| state is Listing
            ||| state is ListingForRemoval
            ||| state is Confirming
            ||| state is Choosing
        },
{
}

/// The command that is run next stores the first of the keys, whole, for the profile of the run, or
/// removes the first of the keys that are to go.
pub proof fn law_what_is_run_next(
    keys: Seq<(SecretKind, Seq<char>)>,
    pending: Seq<(Seq<char>, SecretKind)>,
    profile: Seq<char>,
)
    requires
        keys.len() > 0,
        pending.len() > 0,
    ensures
        (KeychainStateView::Storing { keys }).arguments(profile) == write_arguments(
            profile,
            keys[0].0,
            keys[0].1,
        ),
        (KeychainStateView::Removing { pending }).arguments(profile) == remove_arguments(
            pending[0].0,
            pending[0].1,
        ),
{
}

/// The view of a turn is what it holds: the lines one by one, and the state with all that it
/// carries.
pub proof fn law_view_of_a_turn(turn: KeychainTurn)
    ensures
        turn@.lines.len() == turn.lines@.len(),
        forall|i: int| 0 <= i < turn.lines@.len() ==> turn@.lines[i] == #[trigger] turn.lines@[i]@,
        match turn.state {
            KeychainState::Storing { keys } => turn@.state == (KeychainStateView::Storing {
                keys: key_views(keys@),
            }),
            KeychainState::Listing => turn@.state == KeychainStateView::Listing,
            KeychainState::ListingForRemoval { all, force } => turn@.state
                == (KeychainStateView::ListingForRemoval { all, force }),
            KeychainState::Confirming { entries } => turn@.state == (KeychainStateView::Confirming {
                entries: entry_views(entries@),
            }),
            KeychainState::Choosing { entries } => turn@.state == (KeychainStateView::Choosing {
                entries: entry_views(entries@),
            }),
            KeychainState::Removing { pending } => turn@.state == (KeychainStateView::Removing {
                pending: entry_views(pending@),
            }),
            KeychainState::Finished => turn@.state == KeychainStateView::Finished,
            KeychainState::Failed { error } => turn@.state == (KeychainStateView::Failed {
                error: error@,
            }),
        },
{
}

} // verus!
