use mnemo::keychain::{
    entries_in_listing, entry_from_keychain_account, key_in, keychain_account, keychain_list_args,
    keychain_list_entries, keychain_read, keychain_read_args, keychain_remove,
    keychain_remove_args, keychain_write, keychain_write_args, parse_keychain_blob,
    push_keychain_entry, sort_entries, KeychainEntry, SecretKind, KEYCHAIN_SERVICE,
};
use mnemo::selection::{
    confirmation_prompt, confirmed, copy_entries, keychain_menu, select_keychain_entries,
};

use SecretKind::{ElevenLabs, Hindsight};

fn entry(profile: &str, kind: SecretKind) -> KeychainEntry {
    KeychainEntry { profile: profile.to_string(), kind }
}

fn shown(entries: &[KeychainEntry]) -> Vec<(&str, SecretKind)> {
    entries.iter().map(|e| (e.profile.as_str(), e.kind)).collect()
}

fn three() -> Vec<KeychainEntry> {
    vec![
        entry("a", ElevenLabs),
        entry("a", Hindsight),
        entry("b", ElevenLabs),
    ]
}

const LISTING: &str = r#"keychain: "/Users/me/Library/Keychains/login.keychain-db"
version: 512
class: "genp"
attributes:
    0x00000007 <blob>="mnemo-secrets"
    "acct"<blob>="profile:work:hindsight-api-key"
    "svce"<blob>="mnemo-secrets"
keychain: "/Users/me/Library/Keychains/login.keychain-db"
class: "genp"
attributes:
    "acct"<blob>="profile:default:elevenlabs-api-key"
    "svce"<blob>="mnemo-secrets"
class: "genp"
    "acct"<blob>="profile:default:elevenlabs-api-key"
    "svce"<blob>="something-else"
class: "inet"
    "acct"<blob>="me"
    "svce"<blob>=<NULL>
class: "genp"
    "acct"<blob>="profile:work:hindsight-api-key"
    "svce"<blob>="mnemo-secrets"
class: "genp"
    "svce"<blob>="mnemo-secrets"
    "acct"<blob>="profile:a:b:hindsight-api-key"
"#;

#[test]
fn kinds_are_known_by_their_names() {
    for (kind, name, display) in [
        (ElevenLabs, "elevenlabs", "ElevenLabs"),
        (Hindsight, "hindsight", "Hindsight"),
    ] {
        assert_eq!(kind.name(), name);
        assert_eq!(kind.display_name(), display);
        assert_eq!(SecretKind::from_name(name), Some(kind));
    }
    assert_eq!(SecretKind::from_name("ElevenLabs"), None);
    assert_eq!(SecretKind::from_name(""), None);
}

#[test]
fn accounts_name_profile_and_kind() {
    assert_eq!(keychain_account("default", ElevenLabs), "profile:default:elevenlabs-api-key");
    assert_eq!(keychain_account("default", Hindsight), "profile:default:hindsight-api-key");
}

#[test]
fn accounts_stand_for_what_they_were_made_of() {
    for profile in ["default", "", "a:b", ":", "Ünï", "elevenlabs-api-key"] {
        for kind in [ElevenLabs, Hindsight] {
            let found = entry_from_keychain_account(&keychain_account(profile, kind)).unwrap();
            assert_eq!(found.profile, profile);
            assert_eq!(found.kind, kind);
            assert_eq!(keychain_account(&found.profile, found.kind), keychain_account(profile, kind));
        }
    }
}

#[test]
fn other_accounts_stand_for_nothing() {
    for account in [
        "",
        "profile:",
        "profile:x",
        "default:elevenlabs-api-key",
        "profile:x:elevenlabs",
        "profile:x:other-api-key",
        "profile:x:elevenlabs-api-key ",
        "profile:elevenlabs-api-key",
    ] {
        assert!(entry_from_keychain_account(account).is_none(), "{account}");
    }
}

#[test]
fn attributes_are_read_up_to_the_next_quotation_mark() {
    let line = "    \"acct\"<blob>=\"a b\" \"acct\"<blob>=\"c\"";
    assert_eq!(parse_keychain_blob(line, "acct"), Some("a b".to_string()));
    assert_eq!(parse_keychain_blob(line, "svce"), None);
    assert_eq!(parse_keychain_blob("\"acct\"<blob>=\"open", "acct"), None);
    assert_eq!(parse_keychain_blob("\"acct\"<blob>=\"\"", "acct"), Some(String::new()));
    assert_eq!(parse_keychain_blob("\"acct\"<blob>=<NULL>", "acct"), None);
}

#[test]
fn only_items_of_the_service_are_entries() {
    let mut entries = Vec::new();
    let ours = Some(KEYCHAIN_SERVICE.to_string());
    let account = Some("profile:x:hindsight-api-key".to_string());
    push_keychain_entry(&mut entries, &None, &account);
    push_keychain_entry(&mut entries, &Some("other".to_string()), &account);
    push_keychain_entry(&mut entries, &ours, &None);
    push_keychain_entry(&mut entries, &ours, &Some("x".to_string()));
    assert!(entries.is_empty());
    push_keychain_entry(&mut entries, &ours, &account);
    assert_eq!(shown(&entries), vec![("x", Hindsight)]);
}

#[test]
fn a_listing_gives_each_key_once_and_in_order() {
    let expected = vec![
        ("a:b", Hindsight),
        ("default", ElevenLabs),
        ("work", Hindsight),
    ];
    assert_eq!(shown(&entries_in_listing(LISTING)), expected);
    let entries = keychain_list_entries(true, LISTING.as_bytes()).unwrap();
    assert_eq!(shown(&entries), expected);
    assert!(keychain_list_entries(true, b"").unwrap().is_empty());
    assert_eq!(
        keychain_list_entries(false, LISTING.as_bytes()).unwrap_err().message(),
        "/usr/bin/security failed to list keychain entries"
    );
}

#[test]
fn a_stored_key_is_found_in_a_listing() {
    for profile in ["default", "two words", "x:y"] {
        let listing = format!(
            "{LISTING}class: \"genp\"\n\"acct\"<blob>=\"{}\"\n\"svce\"<blob>=\"{}\"\n",
            keychain_account(profile, ElevenLabs),
            KEYCHAIN_SERVICE
        );
        let entries = entries_in_listing(&listing);
        assert!(shown(&entries).contains(&(profile, ElevenLabs)));
    }
}

#[test]
fn a_listing_need_not_be_text() {
    let mut bytes = b"\xff\xfe\nclass: \"genp\"\r\n".to_vec();
    bytes.extend_from_slice(b"\"acct\"<blob>=\"profile:\xff:hindsight-api-key\"\r\n");
    bytes.extend_from_slice(b"\"svce\"<blob>=\"mnemo-secrets\"\r\n");
    let entries = keychain_list_entries(true, &bytes).unwrap();
    assert_eq!(shown(&entries), vec![("\u{fffd}", Hindsight)]);
}

#[test]
fn sorting_drops_repetitions() {
    let entries = vec![
        entry("b", Hindsight),
        entry("a", Hindsight),
        entry("b", ElevenLabs),
        entry("a", Hindsight),
        entry("B", ElevenLabs),
    ];
    assert_eq!(
        shown(&sort_entries(&entries)),
        vec![("B", ElevenLabs), ("a", Hindsight), ("b", ElevenLabs), ("b", Hindsight)]
    );
}

#[test]
fn commands_name_one_service_and_one_account() {
    assert_eq!(
        keychain_write_args("p", ElevenLabs, "secret"),
        vec![
            "add-generic-password", "-U", "-s", "mnemo-secrets", "-a",
            "profile:p:elevenlabs-api-key", "-w", "secret"
        ]
    );
    assert_eq!(
        keychain_read_args("p", ElevenLabs),
        vec![
            "find-generic-password", "-s", "mnemo-secrets", "-a", "profile:p:elevenlabs-api-key",
            "-w"
        ]
    );
    assert_eq!(
        keychain_remove_args("p", Hindsight),
        vec![
            "delete-generic-password", "-s", "mnemo-secrets", "-a", "profile:p:hindsight-api-key"
        ]
    );
    assert_eq!(keychain_list_args(), vec!["dump-keychain"]);
}

#[test]
fn a_printed_key_is_trimmed() {
    assert_eq!(key_in(" k\n"), Some("k".to_string()));
    assert_eq!(key_in("\n"), None);
    for key in ["k", "sk-a b", "é"] {
        assert_eq!(keychain_read(true, format!("{key}\n").as_bytes()), Some(key.to_string()));
    }
    assert_eq!(keychain_read(true, b"sec\xffret\n"), Some("sec\u{fffd}ret".to_string()));
    assert_eq!(keychain_read(true, b"  \n"), None);
    assert_eq!(keychain_read(false, b"secret"), None);
}

#[test]
fn failed_commands_are_reported_in_their_words() {
    assert!(keychain_write(true, b"ignored").is_ok());
    assert_eq!(
        keychain_write(false, b" denied\xff \n").unwrap_err().message(),
        "/usr/bin/security failed to write keychain entry: denied\u{fffd}"
    );
    assert!(keychain_remove("p", true, b"ignored").is_ok());
    assert_eq!(
        keychain_remove("p", false, b"gone\n").unwrap_err().message(),
        "no keychain entry for profile 'p' or deletion failed: gone"
    );
}

#[test]
fn the_menu_numbers_the_entries() {
    assert_eq!(
        keychain_menu(&three()),
        vec![
            "Select mnemo API keys to remove:",
            "  1. a elevenlabs",
            "  2. a hindsight",
            "  3. b elevenlabs",
            "Enter numbers separated by commas, or 'all'. Leave blank to cancel."
        ]
    );
}

#[test]
fn a_menu_number_picks_its_entry() {
    let entries = three();
    for (i, e) in entries.iter().enumerate() {
        let chosen = select_keychain_entries(&format!("{}\n", i + 1), &entries).unwrap();
        assert_eq!(shown(&chosen), vec![(e.profile.as_str(), e.kind)]);
    }
}

#[test]
fn answers_select_entries() {
    let entries = three();
    let chosen = |answer: &str| select_keychain_entries(answer, &entries).unwrap();
    assert!(chosen(" \n").is_empty());
    assert_eq!(shown(&chosen("ALL\n")), shown(&entries));
    assert_eq!(
        shown(&chosen("3, 1 ,3")),
        vec![("a", ElevenLabs), ("b", ElevenLabs)]
    );
    assert_eq!(shown(&chosen("0")), vec![("a", ElevenLabs)]);
    assert_eq!(shown(&chosen("+2")), vec![("a", Hindsight)]);
    assert_eq!(shown(&copy_entries(&entries)), shown(&entries));
}

#[test]
fn bad_answers_are_refused() {
    let entries = three();
    let refused = |answer: &str| select_keychain_entries(answer, &entries).unwrap_err();
    let error = refused("1, x ,9");
    assert_eq!(error.message(), "invalid selection:  x ");
    assert_eq!(error.cause(), Some("invalid digit found in string".to_string()));
    let error = refused("1,");
    assert_eq!(error.message(), "invalid selection: ");
    assert_eq!(
        error.cause(),
        Some("cannot parse integer from empty string".to_string())
    );
    let error = refused("4");
    assert_eq!(error.message(), "selection out of range: 4");
    assert_eq!(error.cause(), None);
    let error = refused("99999999999999999999999");
    assert_eq!(
        error.cause(),
        Some("number too large to fit in target type".to_string())
    );
}

#[test]
fn nothing_but_yes_confirms() {
    assert!(confirmed("yes\n"));
    assert!(confirmed("  yes "));
    for answer in ["", "y", "Yes", "yes!", "no"] {
        assert!(!confirmed(answer));
    }
    assert_eq!(confirmation_prompt("Sure?"), "Sure? Type 'yes' to continue:");
}

#[test]
fn the_last_attributes_of_an_item_count() {
    let listing = "\"svce\"<blob>=\"mnemo-secrets\"\n\"acct\"<blob>=\"profile:first:hindsight-api-key\"\nclass: x\n\"svce\"<blob>=\"other\"\n\"acct\"<blob>=\"profile:old:hindsight-api-key\"\n\"acct\"<blob>=\"profile:new:hindsight-api-key\"\n\"svce\"<blob>=\"mnemo-secrets\"\nkeychain: y\n\"acct\"<blob>=\"profile:lost:hindsight-api-key\"\nclass: z\n\"svce\"<blob>=\"mnemo-secrets\"";
    assert_eq!(
        shown(&entries_in_listing(listing)),
        vec![("first", Hindsight), ("new", Hindsight)]
    );
}
