use mnemo::config::Config;
use mnemo::keychain_session::{
    handle_keychain_command, KeychainCommand, KeychainRequest, KeychainState, SecurityOutput,
};
use mnemo::paths::NativePath;

fn config() -> Config {
    Config {
        profile: "p".to_string(),
        hindsight_url: None,
        bank: None,
        language: "eng".to_string(),
        model: "m".to_string(),
        cli_elevenlabs_api_key: None,
        env_elevenlabs_api_key: None,
        elevenlabs_api_key: None,
        cli_hindsight_api_key: None,
        env_hindsight_api_key: None,
        hindsight_api_key: None,
        socket_path: NativePath { bytes: Vec::new() },
        context: "c".to_string(),
        metadata: None,
        tags: None,
        strategy: None,
    }
}

fn ok(stdout: &str) -> SecurityOutput {
    SecurityOutput { success: true, stdout: stdout.as_bytes().to_vec(), stderr: Vec::new() }
}

fn bad(stderr: &str) -> SecurityOutput {
    SecurityOutput { success: false, stdout: Vec::new(), stderr: stderr.as_bytes().to_vec() }
}

fn listing(keys: &[(&str, &str)]) -> String {
    keys.iter()
        .map(|(profile, kind)| {
            format!(
                "class: \"genp\"\n    \"acct\"<blob>=\"profile:{profile}:{kind}-api-key\"\n    \"svce\"<blob>=\"mnemo-secrets\"\n"
            )
        })
        .collect()
}

/// Runs a session to its end; gives the commands, the printed lines, and the error if there is one.
fn run(
    start: KeychainState,
    outputs: Vec<SecurityOutput>,
    answers: &[&str],
) -> (Vec<String>, Vec<String>, Option<String>) {
    let mut state = start;
    let mut outputs = outputs.into_iter();
    let mut answers = answers.iter();
    let mut commands = Vec::new();
    let mut lines = Vec::new();
    loop {
        let turn = match state.request("p") {
            KeychainRequest::Run { args } => {
                commands.push(args.join(" "));
                state.security_finished("p", outputs.next().expect("an output"))
            }
            KeychainRequest::Ask => state.answered(answers.next().expect("an answer")),
            KeychainRequest::Stop => break,
        };
        lines.extend(turn.lines);
        state = turn.state;
    }
    assert!(outputs.next().is_none());
    assert!(answers.next().is_none());
    let error = match state {
        KeychainState::Failed { error } => Some(error.message()),
        KeychainState::Finished => None,
        other => panic!("unfinished: {other:?}"),
    };
    (commands, lines, error)
}

#[test]
fn sync_stores_every_key_in_order() {
    let mut config = config();
    config.env_elevenlabs_api_key = Some("el".to_string());
    config.hindsight_api_key = Some("hs".to_string());
    let start = handle_keychain_command(&config, KeychainCommand::Sync);
    let (commands, lines, error) = run(start, vec![ok(""), ok("")], &[]);
    assert_eq!(
        commands,
        vec![
            "add-generic-password -U -s mnemo-secrets -a profile:p:elevenlabs-api-key -w el",
            "add-generic-password -U -s mnemo-secrets -a profile:p:hindsight-api-key -w hs",
        ]
    );
    assert_eq!(
        lines,
        vec![
            "Stored ElevenLabs API key for profile 'p' in macOS Keychain.",
            "Stored Hindsight API key for profile 'p' in macOS Keychain.",
        ]
    );
    assert_eq!(error, None);
}

#[test]
fn sync_stores_a_key_alone() {
    let mut config = config();
    config.cli_hindsight_api_key = Some("hs".to_string());
    let start = handle_keychain_command(&config, KeychainCommand::Sync);
    let (commands, lines, error) = run(start, vec![ok("")], &[]);
    assert_eq!(commands.len(), 1);
    assert_eq!(lines, vec!["Stored Hindsight API key for profile 'p' in macOS Keychain."]);
    assert_eq!(error, None);
}

#[test]
fn sync_needs_a_key() {
    let start = handle_keychain_command(&config(), KeychainCommand::Sync);
    let (commands, lines, error) = run(start, vec![], &[]);
    assert!(commands.is_empty() && lines.is_empty());
    assert_eq!(
        error.unwrap(),
        "no API keys found to sync. Set MNEMO_ELEVENLABS_API_KEY or MNEMO_HINDSIGHT_API_KEY in your shell first, then re-run"
    );
}

#[test]
fn sync_ends_at_the_first_failure() {
    let mut config = config();
    config.env_elevenlabs_api_key = Some("el".to_string());
    config.env_hindsight_api_key = Some("hs".to_string());
    let start = handle_keychain_command(&config, KeychainCommand::Sync);
    let (commands, lines, error) = run(start, vec![bad(" locked\n")], &[]);
    assert_eq!(commands.len(), 1);
    assert!(lines.is_empty());
    assert_eq!(
        error.unwrap(),
        "/usr/bin/security failed to write keychain entry: locked"
    );
}

#[test]
fn list_prints_the_keys() {
    let start = handle_keychain_command(&config(), KeychainCommand::List);
    let found = listing(&[("q", "hindsight"), ("p", "elevenlabs"), ("q", "hindsight")]);
    let (commands, lines, error) = run(start, vec![ok(&found)], &[]);
    assert_eq!(commands, vec!["dump-keychain"]);
    assert_eq!(lines, vec!["p elevenlabs", "q hindsight"]);
    assert_eq!(error, None);
}

#[test]
fn an_empty_keychain_is_reported() {
    for command in [
        KeychainCommand::List,
        KeychainCommand::Remove { all: true, force: true },
        KeychainCommand::Remove { all: false, force: false },
    ] {
        let start = handle_keychain_command(&config(), command);
        let (commands, lines, error) = run(start, vec![ok("")], &[]);
        assert_eq!(commands, vec!["dump-keychain"]);
        assert_eq!(lines, vec!["No mnemo API keys found in macOS Keychain."]);
        assert_eq!(error, None);
    }
}

#[test]
fn a_failed_listing_ends_the_command() {
    for command in [
        KeychainCommand::List,
        KeychainCommand::Remove { all: true, force: true },
    ] {
        let start = handle_keychain_command(&config(), command);
        let (_, lines, error) = run(start, vec![bad("no")], &[]);
        assert!(lines.is_empty());
        assert_eq!(error.unwrap(), "/usr/bin/security failed to list keychain entries");
    }
}

#[test]
fn all_keys_are_removed_once_confirmed() {
    let found = listing(&[("q", "hindsight"), ("p", "elevenlabs")]);
    let start = handle_keychain_command(
        &config(),
        KeychainCommand::Remove { all: true, force: false },
    );
    let (commands, lines, error) = run(start, vec![ok(&found), ok(""), ok("")], &["yes\n"]);
    assert_eq!(
        commands,
        vec![
            "dump-keychain",
            "delete-generic-password -s mnemo-secrets -a profile:p:elevenlabs-api-key",
            "delete-generic-password -s mnemo-secrets -a profile:q:hindsight-api-key",
        ]
    );
    assert_eq!(
        lines,
        vec![
            "Remove all mnemo API keys from macOS Keychain? Type 'yes' to continue:",
            "Removed ElevenLabs API key for profile 'p'.",
            "Removed Hindsight API key for profile 'q'.",
        ]
    );
    assert_eq!(error, None);
}

#[test]
fn nothing_is_removed_without_consent() {
    let found = listing(&[("p", "elevenlabs")]);
    for (all, answer) in [(true, "no\n"), (true, ""), (false, "\n")] {
        let start =
            handle_keychain_command(&config(), KeychainCommand::Remove { all, force: false });
        let (commands, lines, error) = run(start, vec![ok(&found)], &[answer]);
        assert_eq!(commands, vec!["dump-keychain"]);
        assert_eq!(lines.last().unwrap(), "Cancelled.");
        assert_eq!(error, None);
    }
}

#[test]
fn force_removes_all_keys_without_a_question() {
    let found = listing(&[("q", "hindsight"), ("p", "elevenlabs")]);
    let start = handle_keychain_command(
        &config(),
        KeychainCommand::Remove { all: true, force: true },
    );
    let (commands, lines, _) = run(start, vec![ok(&found), ok(""), ok("")], &[]);
    assert_eq!(commands.len(), 3);
    assert_eq!(lines.len(), 2);
}

#[test]
fn a_forced_removal_is_confined_to_the_profile() {
    let found = listing(&[("q", "hindsight"), ("p", "elevenlabs"), ("p", "hindsight")]);
    let command = KeychainCommand::Remove { all: false, force: true };
    let start = handle_keychain_command(&config(), command);
    let (commands, _, error) = run(start, vec![ok(&found), ok(""), ok("")], &[]);
    assert_eq!(
        commands[1..],
        [
            "delete-generic-password -s mnemo-secrets -a profile:p:elevenlabs-api-key",
            "delete-generic-password -s mnemo-secrets -a profile:p:hindsight-api-key",
        ]
    );
    assert_eq!(error, None);

    let start = handle_keychain_command(&config(), command);
    let (commands, lines, _) = run(start, vec![ok(&listing(&[("q", "hindsight")]))], &[]);
    assert_eq!(commands.len(), 1);
    assert_eq!(lines, vec!["Cancelled."]);
}

#[test]
fn chosen_keys_are_removed() {
    let found = listing(&[("q", "hindsight"), ("p", "elevenlabs"), ("r", "hindsight")]);
    let start = handle_keychain_command(
        &config(),
        KeychainCommand::Remove { all: false, force: false },
    );
    let (commands, lines, error) = run(start, vec![ok(&found), ok(""), ok("")], &["3,1"]);
    assert_eq!(
        commands[1..],
        [
            "delete-generic-password -s mnemo-secrets -a profile:p:elevenlabs-api-key",
            "delete-generic-password -s mnemo-secrets -a profile:r:hindsight-api-key",
        ]
    );
    assert_eq!(lines[0], "Select mnemo API keys to remove:");
    assert_eq!(lines[1], "  1. p elevenlabs");
    assert_eq!(
        lines[5..],
        [
            "Removed ElevenLabs API key for profile 'p'.",
            "Removed Hindsight API key for profile 'r'.",
        ]
    );
    assert_eq!(error, None);
}

#[test]
fn a_bad_choice_removes_nothing() {
    let found = listing(&[("p", "elevenlabs")]);
    for (answer, message) in [
        ("2", "selection out of range: 2"),
        ("1,one", "invalid selection: one"),
    ] {
        let start = handle_keychain_command(
            &config(),
            KeychainCommand::Remove { all: false, force: false },
        );
        let (commands, _, error) = run(start, vec![ok(&found)], &[answer]);
        assert_eq!(commands.len(), 1);
        assert_eq!(error.unwrap(), message);
    }
}

#[test]
fn a_failed_removal_ends_the_command() {
    let found = listing(&[("p", "elevenlabs"), ("q", "hindsight")]);
    let start = handle_keychain_command(
        &config(),
        KeychainCommand::Remove { all: true, force: true },
    );
    let (commands, lines, error) = run(start, vec![ok(&found), bad("gone\n")], &[]);
    assert_eq!(commands.len(), 2);
    assert!(lines.is_empty());
    assert_eq!(
        error.unwrap(),
        "no keychain entry for profile 'p' or deletion failed: gone"
    );
}
