use mnemo::command::{command_to_run, Command};
use mnemo::config::{
    api_key_to_sync, config_file_path, hindsight_api_key_to_sync, init_config, init_config_path,
    needs_stored_api_key, needs_stored_hindsight_api_key, resolve_api_key,
    resolve_hindsight_api_key, CliArgs, Config, Environment, FileConfig, ProfileConfig,
    DEFAULT_CONFIG,
};
use mnemo::error::missing_api_key_error;
use mnemo::metadata::{metadata_of_pairs, Metadata};
use mnemo::paths::{default_config_path, default_socket_path, NativePath};
use mnemo::select::{
    first_some, first_some_metadata, first_some_path, first_some_vec, non_empty_vec,
    parse_tags_env,
};

fn text(s: &str) -> Option<String> {
    Some(s.to_string())
}

fn path(s: &str) -> NativePath {
    NativePath { bytes: s.as_bytes().to_vec() }
}

fn strings(list: &[&str]) -> Vec<String> {
    list.iter().map(|s| s.to_string()).collect()
}

fn one(k: &str, v: &str) -> Metadata {
    metadata_of_pairs(vec![(k.to_string(), v.to_string())])
}

fn no_args() -> CliArgs {
    CliArgs {
        config: None,
        profile: None,
        hindsight_url: None,
        bank: None,
        language: None,
        model: None,
        elevenlabs_api_key: None,
        hindsight_api_key: None,
        socket_path: None,
        context: None,
        tags: Vec::new(),
        strategy: None,
        metadata: Vec::new(),
    }
}

fn only_home() -> Environment {
    Environment {
        home: Some(path("/home/me")),
        profile: None,
        hindsight_url: None,
        bank: None,
        language: None,
        model: None,
        elevenlabs_api_key: None,
        hindsight_api_key: None,
        socket_path: None,
        context: None,
        tags: None,
        strategy: None,
        metadata: None,
    }
}

fn full_profile(mark: &str) -> ProfileConfig {
    ProfileConfig {
        hindsight_url: Some(format!("url-{mark}")),
        bank: Some(format!("bank-{mark}")),
        language: Some(format!("lang-{mark}")),
        model: Some(format!("model-{mark}")),
        elevenlabs_api_key: Some(format!("el-{mark}")),
        hindsight_api_key: Some(format!("hs-{mark}")),
        socket_path: Some(path(&format!("/sock-{mark}"))),
        context: Some(format!("ctx-{mark}")),
        metadata: Some(one("from", mark)),
        tags: Some(strings(&[mark])),
        strategy: Some(format!("strategy-{mark}")),
    }
}

fn file() -> FileConfig {
    FileConfig {
        profiles: vec![
            ("business".to_string(), full_profile("b")),
            ("default".to_string(), full_profile("d")),
        ],
    }
}

fn empty_file() -> FileConfig {
    FileConfig { profiles: Vec::new() }
}

#[test]
fn record_is_the_default_command() {
    assert!(matches!(command_to_run(None), Command::Record));
    assert!(matches!(
        command_to_run(Some(Command::Init { force: true })),
        Command::Init { force: true }
    ));
    assert!(matches!(command_to_run(Some(Command::Stop)), Command::Stop));
}

#[test]
fn defaults_stand_where_nothing_is_set() {
    let config = Config::load(no_args(), only_home(), empty_file()).unwrap();
    assert_eq!(config.profile, "default");
    assert_eq!(config.hindsight_url, None);
    assert_eq!(config.bank, None);
    assert_eq!(config.language, "eng");
    assert_eq!(config.model, "scribe_v2");
    assert_eq!(config.context, "user recorded voice memo");
    assert_eq!(
        config.socket_path.display(),
        "/home/me/.local/state/mnemo/mnemo.sock"
    );
    assert!(config.metadata.is_none());
    assert_eq!(config.tags, None);
    assert_eq!(config.strategy, None);
    assert_eq!(config.cli_elevenlabs_api_key, None);
    assert_eq!(config.elevenlabs_api_key, None);
}

#[test]
fn the_file_overrides_the_defaults() {
    let config = Config::load(no_args(), only_home(), file()).unwrap();
    assert_eq!(config.profile, "default");
    assert_eq!(config.hindsight_url, text("url-d"));
    assert_eq!(config.bank, text("bank-d"));
    assert_eq!(config.language, "lang-d");
    assert_eq!(config.model, "model-d");
    assert_eq!(config.elevenlabs_api_key, text("el-d"));
    assert_eq!(config.hindsight_api_key, text("hs-d"));
    assert_eq!(config.socket_path.display(), "/sock-d");
    assert_eq!(config.context, "ctx-d");
    assert_eq!(config.metadata.unwrap().entries(), one("from", "d").entries());
    assert_eq!(config.tags, Some(strings(&["d"])));
    assert_eq!(config.strategy, text("strategy-d"));
}

#[test]
fn the_environment_overrides_the_file() {
    let mut env = only_home();
    env.profile = text("business");
    env.hindsight_url = text("url-e");
    env.bank = text("bank-e");
    env.language = text("lang-e");
    env.model = text("model-e");
    env.elevenlabs_api_key = text("el-e");
    env.hindsight_api_key = text("hs-e");
    env.socket_path = Some(path("/sock-e"));
    env.context = text("ctx-e");
    env.tags = text(" x , ,y");
    env.strategy = text("");
    env.metadata = text("{\"from\":\"e\"}");
    let config = Config::load(no_args(), env, file()).unwrap();
    assert_eq!(config.profile, "business");
    assert_eq!(config.hindsight_url, text("url-e"));
    assert_eq!(config.bank, text("bank-e"));
    assert_eq!(config.language, "lang-e");
    assert_eq!(config.model, "model-e");
    assert_eq!(config.env_elevenlabs_api_key, text("el-e"));
    assert_eq!(config.elevenlabs_api_key, text("el-b"));
    assert_eq!(config.env_hindsight_api_key, text("hs-e"));
    assert_eq!(config.hindsight_api_key, text("hs-b"));
    assert_eq!(config.socket_path.display(), "/sock-e");
    assert_eq!(config.context, "ctx-e");
    assert_eq!(config.metadata.unwrap().entries(), one("from", "e").entries());
    assert_eq!(config.tags, Some(strings(&["x", "y"])));
    assert_eq!(config.strategy, text("strategy-b"));
}

#[test]
fn flags_override_everything() {
    let mut env = only_home();
    env.profile = text("default");
    env.bank = text("bank-e");
    env.tags = text("e");
    env.metadata = text("{\"from\":\"e\"}");
    env.language = text("lang-e");
    let mut args = no_args();
    args.profile = text("business");
    args.bank = text("bank-c");
    args.language = text("");
    args.socket_path = Some(path("/sock-c"));
    args.tags = strings(&["", "c"]);
    args.metadata = strings(&["from=c"]);
    args.elevenlabs_api_key = text("el-c");
    args.strategy = text("strategy-c");
    let config = Config::load(args, env, file()).unwrap();
    assert_eq!(config.profile, "business");
    assert_eq!(config.bank, text("bank-c"));
    assert_eq!(config.language, "lang-e");
    assert_eq!(config.socket_path.display(), "/sock-c");
    assert_eq!(config.tags, Some(strings(&["c"])));
    assert_eq!(config.metadata.unwrap().entries(), one("from", "c").entries());
    assert_eq!(config.cli_elevenlabs_api_key, text("el-c"));
    assert_eq!(config.strategy, text("strategy-c"));
    assert_eq!(config.hindsight_url, text("url-b"));
}

#[test]
fn an_unknown_profile_has_no_settings() {
    let mut args = no_args();
    args.profile = text("family");
    let config = Config::load(args, only_home(), file()).unwrap();
    assert_eq!(config.profile, "family");
    assert_eq!(config.bank, None);
    assert_eq!(config.language, "eng");
}

#[test]
fn profiles_are_found_wherever_they_stand() {
    for names in [["a", "b", "c"], ["c", "a", "b"], ["b", "c", "a"]] {
        for name in names {
            let profiles = names
                .iter()
                .map(|n| (n.to_string(), full_profile(n)))
                .collect();
            let mut args = no_args();
            args.profile = text(name);
            let config = Config::load(args, only_home(), FileConfig { profiles }).unwrap();
            assert_eq!(config.bank, Some(format!("bank-{name}")));
        }
    }
}

#[test]
fn empty_metadata_gives_way() {
    let mut env = only_home();
    env.metadata = text("{}");
    let config = Config::load(no_args(), env, file()).unwrap();
    assert_eq!(config.metadata.unwrap().entries(), one("from", "d").entries());
}

#[test]
fn loading_fails_for_the_first_fault() {
    let mut env = only_home();
    env.home = None;
    env.metadata = text("?");
    let mut args = no_args();
    args.metadata = strings(&["x"]);
    let error = Config::load(args, env, file()).unwrap_err();
    assert_eq!(error.message(), "HOME environment variable is not set");

    let mut env = only_home();
    env.metadata = text("?");
    let mut args = no_args();
    args.metadata = strings(&["x"]);
    let error = Config::load(args, env, file()).unwrap_err();
    assert_eq!(error.message(), "metadata entries must use KEY=VALUE format: x");

    let mut env = only_home();
    env.metadata = text("?");
    let error = Config::load(no_args(), env, file()).unwrap_err();
    assert_eq!(error.message(), "failed to parse MNEMO_METADATA JSON");
}

#[test]
fn default_paths_lie_in_the_home_directory() {
    for (home, config, socket) in [
        ("/h", "/h/.config/mnemo/config.toml", "/h/.local/state/mnemo/mnemo.sock"),
        ("/", "/.config/mnemo/config.toml", "/.local/state/mnemo/mnemo.sock"),
        ("", ".config/mnemo/config.toml", ".local/state/mnemo/mnemo.sock"),
    ] {
        let found = default_config_path(&Some(path(home))).unwrap();
        assert_eq!(found.display(), config);
        let std = std::path::PathBuf::from(home)
            .join(".config")
            .join("mnemo")
            .join("config.toml");
        assert_eq!(found.display(), std.display().to_string());
        assert_eq!(default_socket_path(&Some(path(home))).unwrap().display(), socket);
    }
    assert!(default_config_path(&None).is_err());
    assert_eq!(
        default_socket_path(&None).unwrap_err().message(),
        "HOME environment variable is not set"
    );
}

#[test]
fn paths_that_are_not_text_are_shown_all_the_same() {
    let odd = NativePath { bytes: vec![b'/', 0xff, b'x'] };
    assert_eq!(odd.display(), "/\u{fffd}x");
    assert_eq!(odd.copy().bytes, odd.bytes);
    assert!(!odd.is_empty());
    assert!(path("").is_empty());
    let home = NativePath { bytes: vec![b'/', 0xff] };
    let config = default_config_path(&Some(home)).unwrap();
    assert_eq!(&config.bytes[..3], &[b'/', 0xff, b'/']);
}

#[test]
fn the_configuration_file_can_be_named() {
    let named = Some(path("/etc/mnemo.toml"));
    let home = Some(path("/h"));
    assert_eq!(config_file_path(&named, &home).unwrap().display(), "/etc/mnemo.toml");
    assert_eq!(
        config_file_path(&None, &home).unwrap().display(),
        "/h/.config/mnemo/config.toml"
    );
    assert!(config_file_path(&named, &None).is_err());
    assert_eq!(init_config_path(&named, &None).unwrap().display(), "/etc/mnemo.toml");
    assert_eq!(
        init_config_path(&None, &home).unwrap().display(),
        "/h/.config/mnemo/config.toml"
    );
    assert!(init_config_path(&None, &None).is_err());
}

#[test]
fn init_keeps_a_file_unless_forced() {
    let place = path("/h/c.toml");
    for (present, force) in [(false, false), (false, true), (true, true)] {
        let plan = init_config(&place, present, force).unwrap();
        assert_eq!(plan.contents, DEFAULT_CONFIG);
        assert_eq!(plan.announcement, "Created config file at /h/c.toml");
    }
    assert_eq!(
        init_config(&place, true, false).unwrap_err().message(),
        "config file already exists at /h/c.toml. Use --force to overwrite it"
    );
}

#[test]
fn the_created_file_sets_the_default_profile() {
    let table: toml::Table = DEFAULT_CONFIG.parse().unwrap();
    let profile = table["profiles"]["default"].as_table().unwrap();
    assert_eq!(profile.len(), 4);
    assert_eq!(profile["bank"].as_str(), Some("personal"));
    assert_eq!(profile["language"].as_str(), Some("eng"));
    assert_eq!(profile["model"].as_str(), Some("scribe_v2"));
    assert_eq!(profile["context"].as_str(), Some("user recorded voice memo"));
}

#[test]
fn keys_follow_their_precedence() {
    let mut config = Config::load(no_args(), only_home(), file()).unwrap();
    assert!(needs_stored_api_key(&config));
    assert!(needs_stored_hindsight_api_key(&config));
    assert_eq!(resolve_api_key(&config, None), text("el-d"));
    assert_eq!(resolve_api_key(&config, text("kept")), text("kept"));
    assert_eq!(resolve_hindsight_api_key(&config, None), text("hs-d"));
    assert_eq!(resolve_hindsight_api_key(&config, text("kept")), text("kept"));
    config.env_elevenlabs_api_key = text("el-e");
    config.env_hindsight_api_key = text("hs-e");
    assert!(!needs_stored_api_key(&config));
    assert!(!needs_stored_hindsight_api_key(&config));
    assert_eq!(resolve_api_key(&config, text("kept")), text("el-e"));
    assert_eq!(resolve_hindsight_api_key(&config, text("kept")), text("hs-e"));
    config.cli_elevenlabs_api_key = text("el-c");
    config.cli_hindsight_api_key = text("");
    assert_eq!(resolve_api_key(&config, text("kept")), text("el-c"));
    assert_eq!(resolve_hindsight_api_key(&config, text("kept")), text("hs-e"));
    assert_eq!(api_key_to_sync(&config), text("el-c"));
    assert_eq!(hindsight_api_key_to_sync(&config), text("hs-e"));
}

#[test]
fn an_empty_key_in_the_file_is_used_but_not_stored() {
    let mut config = Config::load(no_args(), only_home(), empty_file()).unwrap();
    config.elevenlabs_api_key = text("");
    assert_eq!(resolve_api_key(&config, None), text(""));
    assert_eq!(api_key_to_sync(&config), None);
    assert_eq!(resolve_hindsight_api_key(&config, None), None);
    assert_eq!(hindsight_api_key_to_sync(&config), None);
}

#[test]
fn a_missing_key_is_explained() {
    assert_eq!(
        missing_api_key_error().message(),
        "no API key found. Set one of:\n  export MNEMO_ELEVENLABS_API_KEY=...\n  mnemo keychain sync\n  elevenlabs_api_key = \"...\" in ~/.config/mnemo/config.toml"
    );
}

#[test]
fn the_first_setting_that_is_not_empty_wins() {
    assert_eq!(first_some([None, text(""), text("a"), text("b")]), text("a"));
    assert_eq!(first_some([None, text("")]), None);
    assert_eq!(first_some([]), None);
    let found = first_some_path([Some(path("")), None, Some(path("/x"))]).unwrap();
    assert_eq!(found.display(), "/x");
    assert!(first_some_path([None]).is_none());
    let found = first_some_metadata([Some(Metadata::new()), Some(one("k", "v"))]).unwrap();
    assert_eq!(found.entries(), one("k", "v").entries());
    assert!(first_some_metadata([None, Some(Metadata::new())]).is_none());
    assert_eq!(
        first_some_vec([Some(Vec::new()), Some(strings(&["t"]))]),
        Some(strings(&["t"]))
    );
    assert_eq!(first_some_vec([None]), None);
}

#[test]
fn empty_strings_are_dropped_from_lists() {
    assert_eq!(non_empty_vec(strings(&["", "a", "", "b"])), Some(strings(&["a", "b"])));
    assert_eq!(non_empty_vec(strings(&["", ""])), None);
    assert_eq!(non_empty_vec(Vec::new()), None);
}

#[test]
fn tags_are_separated_by_commas() {
    assert_eq!(
        parse_tags_env(text("voice-note, personal ,,\t")),
        Some(strings(&["voice-note", "personal"]))
    );
    assert_eq!(parse_tags_env(text(" , ")), None);
    assert_eq!(parse_tags_env(None), None);
}
