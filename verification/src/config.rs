//! The configuration: flags, environment variables, profiles of the configuration file, defaults.

use vstd::prelude::*;

use crate::error::Error;
#[allow(unused_imports)]
use crate::error::ErrorView;
use crate::metadata::{parse_metadata_entries, parse_metadata_env, Metadata};
#[allow(unused_imports)]
use crate::metadata::{entries_map, entry_key, json_object_of_strings, opt_map};
use crate::paths::{default_config_path, default_socket_path, NativePath};
#[allow(unused_imports)]
use crate::paths::{config_path_in, opt_path, socket_path_in};
use crate::select::{
    first_some, first_some_metadata, first_some_path, first_some_vec, non_empty_vec,
    parse_tags_env,
};
#[allow(unused_imports)]
use crate::select::{
    first_present, first_present_map, kept, non_empty, opt_list, opt_lists, opt_maps, opt_paths,
    opt_texts, tags_in,
};
use crate::text::{copy_text, same_string};
#[allow(unused_imports)]
use crate::text::{lossy_text, opt_text, texts};

verus! {

/// The context that is sent with a note when none was set.
pub const DEFAULT_CONTEXT: &'static str = "user recorded voice memo";

/// The profile that is used when none was named.
pub const DEFAULT_PROFILE: &'static str = "default";

/// The language that is sent when none was set.
pub const DEFAULT_LANGUAGE: &'static str = "eng";

/// The transcription model that is used when none was set.
pub const DEFAULT_MODEL: &'static str = "scribe_v2";

/// The configuration file that `init` creates.
pub const DEFAULT_CONFIG: &'static str = r#"# mnemo config
# Default location: ~/.config/mnemo/config.toml
# Environment variables override these values. Explicit CLI flags override both.

[profiles.default]
# Required: your Hindsight API URL.
# hindsight_url = "https://your-hindsight-api.example.com"

# Required: Hindsight memory bank to retain voice notes into.
bank = "personal"

# ElevenLabs STT settings.
language = "eng"
model = "scribe_v2"

# Default context sent to Hindsight with each retained voice note.
context = "user recorded voice memo"

# Optional Hindsight retain settings. Leave unset to send null.
# metadata = { source = "mnemo" }
# tags = ["voice-note"]
# strategy = "append"

# Prefer macOS Keychain or MNEMO_ELEVENLABS_API_KEY for secrets, but config is supported.
# elevenlabs_api_key = "..."

# Optional. Prefer macOS Keychain or MNEMO_HINDSIGHT_API_KEY for secrets, but config is supported.
# hindsight_api_key = "..."

# Defaults to ~/.local/state/mnemo/mnemo.sock
# socket_path = "/Users/you/.local/state/mnemo/mnemo.sock"
"#;

/// What the command line says.
pub struct CliArgs {
    pub config: Option<NativePath>,
    pub profile: Option<String>,
    pub hindsight_url: Option<String>,
    pub bank: Option<String>,
    pub language: Option<String>,
    pub model: Option<String>,
    pub elevenlabs_api_key: Option<String>,
    pub hindsight_api_key: Option<String>,
    pub socket_path: Option<NativePath>,
    pub context: Option<String>,
    pub tags: Vec<String>,
    pub strategy: Option<String>,
    pub metadata: Vec<String>,
}

/// What the environment says: the home directory and the `MNEMO_*` variables.
pub struct Environment {
    pub home: Option<NativePath>,
    pub profile: Option<String>,
    pub hindsight_url: Option<String>,
    pub bank: Option<String>,
    pub language: Option<String>,
    pub model: Option<String>,
    pub elevenlabs_api_key: Option<String>,
    pub hindsight_api_key: Option<String>,
    pub socket_path: Option<NativePath>,
    pub context: Option<String>,
    pub tags: Option<String>,
    pub strategy: Option<String>,
    pub metadata: Option<String>,
}

/// The settings of one profile in the configuration file.
#[derive(Debug)]
pub struct ProfileConfig {
    pub hindsight_url: Option<String>,
    pub bank: Option<String>,
    pub language: Option<String>,
    pub model: Option<String>,
    pub elevenlabs_api_key: Option<String>,
    pub hindsight_api_key: Option<String>,
    pub socket_path: Option<NativePath>,
    pub context: Option<String>,
    pub metadata: Option<Metadata>,
    pub tags: Option<Vec<String>>,
    pub strategy: Option<String>,
}

/// The configuration file: settings under the names of profiles.
#[derive(Debug)]
pub struct FileConfig {
    pub profiles: Vec<(String, ProfileConfig)>,
}

/// The settings of a run.
#[derive(Debug)]
pub struct Config {
    pub profile: String,
    pub hindsight_url: Option<String>,
    pub bank: Option<String>,
    pub language: String,
    pub model: String,
    pub cli_elevenlabs_api_key: Option<String>,
    pub env_elevenlabs_api_key: Option<String>,
    pub elevenlabs_api_key: Option<String>,
    pub cli_hindsight_api_key: Option<String>,
    pub env_hindsight_api_key: Option<String>,
    pub hindsight_api_key: Option<String>,
    pub socket_path: NativePath,
    pub context: String,
    pub metadata: Option<Metadata>,
    pub tags: Option<Vec<String>>,
    pub strategy: Option<String>,
}

/// A profile in which nothing is set.
pub open spec fn empty_profile() -> ProfileConfig {
    ProfileConfig {
        hindsight_url: None,
        bank: None,
        language: None,
        model: None,
        elevenlabs_api_key: None,
        hindsight_api_key: None,
        socket_path: None,
        context: None,
        metadata: None,
        tags: None,
        strategy: None,
    }
}

impl Default for ProfileConfig {
    fn default() -> (p: ProfileConfig)
        ensures
            p == empty_profile(),
    {
        ProfileConfig {
            hindsight_url: None,
            bank: None,
            language: None,
            model: None,
            elevenlabs_api_key: None,
            hindsight_api_key: None,
            socket_path: None,
            context: None,
            metadata: None,
            tags: None,
            strategy: None,
        }
    }
}

/// The settings under a name; a name that is not there has none.
pub open spec fn profile_named(
    profiles: Seq<(String, ProfileConfig)>,
    name: Seq<char>,
) -> ProfileConfig
    decreases profiles.len(),
{
    if profiles.len() == 0 {
        empty_profile()
    } else if profiles.first().0@ == name {
        profiles.first().1
    } else {
        profile_named(profiles.drop_first(), name)
    }
}

/// Whether no two profiles have one name.
pub open spec fn names_differ(profiles: Seq<(String, ProfileConfig)>) -> bool {
    forall|i: int, j: int|
        0 <= i < j < profiles.len() ==> #[trigger] profiles[i].0@ != #[trigger] profiles[j].0@
}

/// Where names differ, every profile is found under its name, wherever it stands.
pub proof fn law_profile_is_found_by_its_name(profiles: Seq<(String, ProfileConfig)>, i: int)
    requires
        names_differ(profiles),
        0 <= i < profiles.len(),
    ensures
        profile_named(profiles, profiles[i].0@) == profiles[i].1,
    decreases profiles.len(),
{
    if i > 0 {
        let rest = profiles.drop_first();
        assert(profiles[0].0@ != profiles[i].0@);
        assert forall|a: int, b: int| 0 <= a < b < rest.len() implies #[trigger] rest[a].0@
            != #[trigger] rest[b].0@ by {
            assert(profiles[a + 1].0@ != profiles[b + 1].0@);
        }
        law_profile_is_found_by_its_name(rest, i - 1);
        assert(rest[i - 1] == profiles[i]);
    }
}

/// Under a name that no profile has, nothing is set.
pub proof fn law_unknown_profile_is_empty(profiles: Seq<(String, ProfileConfig)>, name: Seq<char>)
    requires
        forall|i: int| 0 <= i < profiles.len() ==> #[trigger] profiles[i].0@ != name,
    ensures
        profile_named(profiles, name) == empty_profile(),
    decreases profiles.len(),
{
    if profiles.len() > 0 {
        let rest = profiles.drop_first();
        assert forall|i: int| 0 <= i < rest.len() implies #[trigger] rest[i].0@ != name by {
            assert(profiles[i + 1].0@ != name);
        }
        assert(profiles[0].0@ != name);
        law_unknown_profile_is_empty(rest, name);
    }
}

/// A setting: the flag before the environment, and the environment before the file.
pub open spec fn layered<T>(
    cli: Option<Seq<T>>,
    env: Option<Seq<T>>,
    file: Option<Seq<T>>,
) -> Option<Seq<T>> {
    first_present(seq![cli, env, file])
}

/// A setting with a default that comes last.
pub open spec fn layered_or<T>(
    cli: Option<Seq<T>>,
    env: Option<Seq<T>>,
    file: Option<Seq<T>>,
    default: Seq<T>,
) -> Seq<T> {
    match layered(cli, env, file) {
        Some(v) => v,
        None => default,
    }
}

/// Defaults give way to the file, the file to the environment, and the environment to the flags;
/// an empty value counts as none.
pub proof fn law_precedence<T>(
    cli: Option<Seq<T>>,
    env: Option<Seq<T>>,
    file: Option<Seq<T>>,
    default: Seq<T>,
)
    ensures
        cli is Some && cli->0.len() > 0 ==> layered_or(cli, env, file, default) == cli->0,
        !(cli is Some && cli->0.len() > 0) && env is Some && env->0.len() > 0 ==> layered_or(
            cli,
            env,
            file,
            default,
        ) == env->0,
        !(cli is Some && cli->0.len() > 0) && !(env is Some && env->0.len() > 0) && file is Some
            && file->0.len() > 0 ==> layered_or(cli, env, file, default) == file->0,
        !(cli is Some && cli->0.len() > 0) && !(env is Some && env->0.len() > 0) && !(file is Some
            && file->0.len() > 0) ==> layered(cli, env, file) is None && layered_or(
            cli,
            env,
            file,
            default,
        ) == default,
{
    reveal_with_fuel(first_present, 4);
    let all = seq![cli, env, file];
    assert(all.drop_first() == seq![env, file]);
    assert(all.drop_first().drop_first() == seq![file]);
}

fn layer(cli: Option<String>, env: Option<String>, file: Option<String>) -> (chosen: Option<
    String,
>)
    ensures
        opt_text(chosen) == layered(opt_text(cli), opt_text(env), opt_text(file)),
{
    let values: [Option<String>; 3] = [cli, env, file];
    assert(opt_texts(values@) == seq![opt_text(cli), opt_text(env), opt_text(file)]);
    first_some(values)
}

fn layer_or(
    cli: Option<String>,
    env: Option<String>,
    file: Option<String>,
    default: &str,
) -> (chosen: String)
    ensures
        chosen@ == layered_or(opt_text(cli), opt_text(env), opt_text(file), default@),
{
    match layer(cli, env, file) {
        Some(value) => value,
        None => default.to_owned(),
    }
}

/// The settings under a name; a name that is not there has none.
fn take_profile(profiles: Vec<(String, ProfileConfig)>, name: &str) -> (p: ProfileConfig)
    ensures
        p == profile_named(profiles@, name@),
{
    let mut rest: Vec<(String, ProfileConfig)> = profiles;
    let mut i: usize = 0;
    assert(profiles@.skip(0) == profiles@);
    while i < rest.len()
        invariant
            rest@ == profiles@,
            i <= rest.len(),
            profile_named(profiles@, name@) == profile_named(profiles@.skip(i as int), name@),
        decreases rest.len() - i,
    {
        assert(profiles@.skip(i as int).drop_first() == profiles@.skip(i + 1));
        if same_string(rest[i].0.as_str(), name) {
            let (_, found) = rest.swap_remove(i);
            return found;
        }
        i += 1;
    }
    ProfileConfig::default()
}

/// The configuration file to read: the one that was named, or else the default one. The default
/// place must be known in either case.
pub fn config_file_path(config: &Option<NativePath>, home: &Option<NativePath>) -> (r: Result<
    NativePath,
    Error,
>)
    ensures
        match r {
            Ok(path) => *home is Some && path@ == match *config {
                Some(named) => named@,
                None => config_path_in(home->0@),
            },
            Err(e) => *home is None && e@ == ErrorView::HomeNotSet,
        },
{
    let default: NativePath = match default_config_path(home) {
        Ok(path) => path,
        Err(e) => return Err(e),
    };
    match config {
        Some(named) => Ok(named.copy()),
        None => Ok(default),
    }
}

/// The profile that a run uses.
pub open spec fn chosen_profile(args: CliArgs, env: Environment) -> Seq<char> {
    layered_or(opt_text(args.profile), opt_text(env.profile), None, DEFAULT_PROFILE@)
}

/// The metadata that the flags give: that of the `KEY=VALUE` entries, if there are any.
pub open spec fn metadata_of_flags(entries: Seq<Seq<char>>) -> Result<
    Option<Map<Seq<char>, Seq<char>>>,
    ErrorView,
> {
    if entries.len() == 0 {
        Ok(None)
    } else {
        match entries_map(entries) {
            Ok(m) => Ok(Some(m)),
            Err(e) => Err(e),
        }
    }
}

/// The metadata that the environment gives: that of the JSON object, if the variable is set.
pub open spec fn metadata_of_variable(variable: Option<Seq<char>>) -> Result<
    Option<Map<Seq<char>, Seq<char>>>,
    ErrorView,
> {
    match variable {
        None => Ok(None),
        Some(text) => match json_object_of_strings(text) {
            Ok(m) => Ok(Some(m)),
            Err(reason) => Err(ErrorView::MetadataJson { reason }),
        },
    }
}

/// What keeps the settings from being loaded: an unknown home directory, bad metadata in the
/// flags, bad metadata in the environment, in this order.
pub open spec fn load_fault(args: CliArgs, env: Environment) -> Option<ErrorView> {
    if env.home is None {
        Some(ErrorView::HomeNotSet)
    } else if metadata_of_flags(texts(args.metadata@)) is Err {
        Some(metadata_of_flags(texts(args.metadata@))->Err_0)
    } else if metadata_of_variable(opt_text(env.metadata)) is Err {
        Some(metadata_of_variable(opt_text(env.metadata))->Err_0)
    } else {
        None
    }
}

impl Config {
    /// Whether these are the settings that the flags, the environment and a profile of the file
    /// amount to.
    pub open spec fn loaded_from(
        self,
        args: CliArgs,
        env: Environment,
        p: ProfileConfig,
    ) -> bool {
        &&& self.profile@ == chosen_profile(args, env)
        &&& opt_text(self.hindsight_url) == layered(
            opt_text(args.hindsight_url),
            opt_text(env.hindsight_url),
            opt_text(p.hindsight_url),
        )
        &&& opt_text(self.bank) == layered(
            opt_text(args.bank),
            opt_text(env.bank),
            opt_text(p.bank),
        )
        &&& self.language@ == layered_or(
            opt_text(args.language),
            opt_text(env.language),
            opt_text(p.language),
            DEFAULT_LANGUAGE@,
        )
        &&& self.model@ == layered_or(
            opt_text(args.model),
            opt_text(env.model),
            opt_text(p.model),
            DEFAULT_MODEL@,
        )
        &&& opt_text(self.cli_elevenlabs_api_key) == opt_text(args.elevenlabs_api_key)
        &&& opt_text(self.env_elevenlabs_api_key) == opt_text(env.elevenlabs_api_key)
        &&& opt_text(self.elevenlabs_api_key) == opt_text(p.elevenlabs_api_key)
        &&& opt_text(self.cli_hindsight_api_key) == opt_text(args.hindsight_api_key)
        &&& opt_text(self.env_hindsight_api_key) == opt_text(env.hindsight_api_key)
        &&& opt_text(self.hindsight_api_key) == opt_text(p.hindsight_api_key)
        &&& self.socket_path@ == layered_or(
            opt_path(args.socket_path),
            opt_path(env.socket_path),
            opt_path(p.socket_path),
            socket_path_in(env.home->0@),
        )
        &&& self.context@ == layered_or(
            opt_text(args.context),
            opt_text(env.context),
            opt_text(p.context),
            DEFAULT_CONTEXT@,
        )
        &&& opt_map(self.metadata) == first_present_map(
            seq![
                metadata_of_flags(texts(args.metadata@))->Ok_0,
                metadata_of_variable(opt_text(env.metadata))->Ok_0,
                opt_map(p.metadata),
            ],
        )
        &&& opt_list(self.tags) == layered(
            non_empty(texts(args.tags@)),
            match env.tags {
                Some(list) => tags_in(list@),
                None => None,
            },
            opt_list(p.tags),
        )
        &&& opt_text(self.strategy) == layered(
            opt_text(args.strategy),
            opt_text(env.strategy),
            opt_text(p.strategy),
        )
    }

    /// Settles the settings of a run.
    pub fn load(args: CliArgs, env: Environment, file: FileConfig) -> (r: Result<Config, Error>)
        ensures
            match r {
                Ok(config) => load_fault(args, env) is None && config.loaded_from(
                    args,
                    env,
                    profile_named(file.profiles@, chosen_profile(args, env)),
                ),
                Err(e) => load_fault(args, env) == Some(e@),
            },
            r is Ok ==> {
                let config = r->Ok_0;
                let p = profile_named(file.profiles@, config.profile@);
                &&& takes_precedence(
                    opt_text(config.hindsight_url),
                    opt_text(args.hindsight_url),
                    opt_text(env.hindsight_url),
                    opt_text(p.hindsight_url),
                )
                &&& takes_precedence(
                    opt_text(config.bank),
                    opt_text(args.bank),
                    opt_text(env.bank),
                    opt_text(p.bank),
                )
                &&& given(opt_text(args.language)) ==> config.language@ == args.language->0@
                &&& given(opt_text(args.model)) ==> config.model@ == args.model->0@
                &&& given(opt_text(args.context)) ==> config.context@ == args.context->0@
            },
    {
        let profile: String = layer_or(args.profile, env.profile, None, DEFAULT_PROFILE);
        let settings: ProfileConfig = take_profile(file.profiles, profile.as_str());
        let hindsight_url: Option<String> = layer(
            args.hindsight_url,
            env.hindsight_url,
            settings.hindsight_url,
        );
        let bank: Option<String> = layer(args.bank, env.bank, settings.bank);
        let language: String = layer_or(
            args.language,
            env.language,
            settings.language,
            DEFAULT_LANGUAGE,
        );
        let model: String = layer_or(args.model, env.model, settings.model, DEFAULT_MODEL);
        let default_socket: NativePath = match default_socket_path(&env.home) {
            Ok(path) => path,
            Err(e) => return Err(e),
        };
        let sockets: [Option<NativePath>; 3] = [
            args.socket_path,
            env.socket_path,
            settings.socket_path,
        ];
        assert(opt_paths(sockets@) == seq![
            opt_path(args.socket_path),
            opt_path(env.socket_path),
            opt_path(settings.socket_path),
        ]);
        let socket_path: NativePath = match first_some_path(sockets) {
            Some(path) => path,
            None => default_socket,
        };
        let context: String = layer_or(
            args.context,
            env.context,
            settings.context,
            DEFAULT_CONTEXT,
        );
        let flag_metadata: Option<Metadata> = match parse_metadata_entries(args.metadata) {
            Ok(m) => m,
            Err(e) => return Err(e),
        };
        let variable_metadata: Option<Metadata> = match parse_metadata_env(env.metadata) {
            Ok(m) => m,
            Err(e) => return Err(e),
        };
        let maps: [Option<Metadata>; 3] = [flag_metadata, variable_metadata, settings.metadata];
        assert(opt_maps(maps@) == seq![
            metadata_of_flags(texts(args.metadata@))->Ok_0,
            metadata_of_variable(opt_text(env.metadata))->Ok_0,
            opt_map(settings.metadata),
        ]);
        let metadata: Option<Metadata> = first_some_metadata(maps);
        let flag_tags: Option<Vec<String>> = non_empty_vec(args.tags);
        let variable_tags: Option<Vec<String>> = parse_tags_env(env.tags);
        let lists: [Option<Vec<String>>; 3] = [flag_tags, variable_tags, settings.tags];
        assert(opt_lists(lists@) == seq![
            opt_list(flag_tags),
            opt_list(variable_tags),
            opt_list(settings.tags),
        ]);
        let tags: Option<Vec<String>> = first_some_vec(lists);
        let strategy: Option<String> = layer(args.strategy, env.strategy, settings.strategy);
        let config: Config = Config {
            profile,
            hindsight_url,
            bank,
            language,
            model,
            cli_elevenlabs_api_key: args.elevenlabs_api_key,
            env_elevenlabs_api_key: env.elevenlabs_api_key,
            elevenlabs_api_key: settings.elevenlabs_api_key,
            cli_hindsight_api_key: args.hindsight_api_key,
            env_hindsight_api_key: env.hindsight_api_key,
            hindsight_api_key: settings.hindsight_api_key,
            socket_path,
            context,
            metadata,
            tags,
            strategy,
        };
        proof {
            law_loaded_settings(
                config,
                args,
                env,
                profile_named(file.profiles@, chosen_profile(args, env)),
            );
        }
        Ok(config)
    }
}

/// Metadata follows the same precedence: that of the flags, then that of the environment, then
/// that of the file; metadata without entries counts as none.
pub proof fn law_metadata_precedence<K, V>(
    cli: Option<Map<K, V>>,
    env: Option<Map<K, V>>,
    file: Option<Map<K, V>>,
)
    ensures
        ({
            let chosen = first_present_map(seq![cli, env, file]);
            let none = Map::<K, V>::empty();
            &&& cli is Some && cli->0 != none ==> chosen == cli
            &&& !(cli is Some && cli->0 != none) && env is Some && env->0 != none ==> chosen == env
            &&& !(cli is Some && cli->0 != none) && !(env is Some && env->0 != none) && file is Some
                && file->0 != none ==> chosen == file
            &&& !(cli is Some && cli->0 != none) && !(env is Some && env->0 != none) && !(
            file is Some && file->0 != none) ==> chosen is None
        }),
{
    reveal_with_fuel(first_present_map, 4);
    let all = seq![cli, env, file];
    assert(all.drop_first() == seq![env, file]);
    assert(all.drop_first().drop_first() == seq![file]);
}

/// The key that a flag or the environment gives.
pub open spec fn given_key(cli: Option<Seq<char>>, env: Option<Seq<char>>) -> Option<Seq<char>> {
    first_present(seq![cli, env])
}

/// The key to use: one that is given, or else the stored one, or else that of the file.
pub open spec fn key_to_use(
    cli: Option<Seq<char>>,
    env: Option<Seq<char>>,
    stored: Option<Seq<char>>,
    file: Option<Seq<char>>,
) -> Option<Seq<char>> {
    match given_key(cli, env) {
        Some(key) => Some(key),
        None => match stored {
            Some(key) => Some(key),
            None => file,
        },
    }
}

/// A key from a flag wins over one from the environment, that over one in the Keychain, and that
/// over one in the file.
pub proof fn law_key_precedence(
    cli: Option<Seq<char>>,
    env: Option<Seq<char>>,
    stored: Option<Seq<char>>,
    file: Option<Seq<char>>,
)
    ensures
        cli is Some && cli->0.len() > 0 ==> key_to_use(cli, env, stored, file) == cli,
        !(cli is Some && cli->0.len() > 0) && env is Some && env->0.len() > 0 ==> key_to_use(
            cli,
            env,
            stored,
            file,
        ) == env,
        !(cli is Some && cli->0.len() > 0) && !(env is Some && env->0.len() > 0) && stored is Some
            ==> key_to_use(cli, env, stored, file) == stored,
        !(cli is Some && cli->0.len() > 0) && !(env is Some && env->0.len() > 0) && stored is None
            ==> key_to_use(cli, env, stored, file) == file,
{
    reveal_with_fuel(first_present, 3);
    assert(seq![cli, env].drop_first() == seq![env]);
}

fn pick_given_key(cli: &Option<String>, env: &Option<String>) -> (key: Option<String>)
    ensures
        opt_text(key) == given_key(opt_text(*cli), opt_text(*env)),
{
    let values: [Option<String>; 2] = [copy_text(cli), copy_text(env)];
    assert(opt_texts(values@) == seq![opt_text(*cli), opt_text(*env)]);
    first_some(values)
}

/// Whether the Keychain is to be asked for the ElevenLabs key: only where none is given.
pub fn needs_stored_api_key(config: &Config) -> (yes: bool)
    ensures
        yes == (given_key(
            opt_text(config.cli_elevenlabs_api_key),
            opt_text(config.env_elevenlabs_api_key),
        ) is None),
        yes == (!given(opt_text(config.cli_elevenlabs_api_key)) && !given(
            opt_text(config.env_elevenlabs_api_key),
        )),
{
    proof {
        law_given_keys_come_first(
            opt_text(config.cli_elevenlabs_api_key),
            opt_text(config.env_elevenlabs_api_key),
        );
    }
    pick_given_key(&config.cli_elevenlabs_api_key, &config.env_elevenlabs_api_key).is_none()
}

/// Whether the Keychain is to be asked for the Hindsight key: only where none is given.
pub fn needs_stored_hindsight_api_key(config: &Config) -> (yes: bool)
    ensures
        yes == (given_key(
            opt_text(config.cli_hindsight_api_key),
            opt_text(config.env_hindsight_api_key),
        ) is None),
        yes == (!given(opt_text(config.cli_hindsight_api_key)) && !given(
            opt_text(config.env_hindsight_api_key),
        )),
{
    proof {
        law_given_keys_come_first(
            opt_text(config.cli_hindsight_api_key),
            opt_text(config.env_hindsight_api_key),
        );
    }
    pick_given_key(&config.cli_hindsight_api_key, &config.env_hindsight_api_key).is_none()
}

/// The ElevenLabs key to use; `stored` is what the Keychain holds.
pub fn resolve_api_key(config: &Config, stored: Option<String>) -> (key: Option<String>)
    ensures
        opt_text(key) == elevenlabs_key(*config, opt_text(stored)),
        key_takes_precedence(
            opt_text(key),
            opt_text(config.cli_elevenlabs_api_key),
            opt_text(config.env_elevenlabs_api_key),
            opt_text(stored),
            opt_text(config.elevenlabs_api_key),
        ),
{
    proof {
        law_keys_of_a_run(*config, opt_text(stored));
    }
    if let Some(key) = pick_given_key(
        &config.cli_elevenlabs_api_key,
        &config.env_elevenlabs_api_key,
    ) {
        return Some(key);
    }
    if let Some(key) = stored {
        return Some(key);
    }
    copy_text(&config.elevenlabs_api_key)
}

/// The Hindsight key to use; `stored` is what the Keychain holds.
pub fn resolve_hindsight_api_key(config: &Config, stored: Option<String>) -> (key: Option<String>)
    ensures
        opt_text(key) == hindsight_key(*config, opt_text(stored)),
        key_takes_precedence(
            opt_text(key),
            opt_text(config.cli_hindsight_api_key),
            opt_text(config.env_hindsight_api_key),
            opt_text(stored),
            opt_text(config.hindsight_api_key),
        ),
{
    proof {
        law_keys_of_a_run(*config, opt_text(stored));
    }
    if let Some(key) = pick_given_key(
        &config.cli_hindsight_api_key,
        &config.env_hindsight_api_key,
    ) {
        return Some(key);
    }
    if let Some(key) = stored {
        return Some(key);
    }
    copy_text(&config.hindsight_api_key)
}

/// The ElevenLabs key that a synchronisation stores.
pub fn api_key_to_sync(config: &Config) -> (key: Option<String>)
    ensures
        opt_text(key) == layered(
            opt_text(config.cli_elevenlabs_api_key),
            opt_text(config.env_elevenlabs_api_key),
            opt_text(config.elevenlabs_api_key),
        ),
        takes_precedence(
            opt_text(key),
            opt_text(config.cli_elevenlabs_api_key),
            opt_text(config.env_elevenlabs_api_key),
            opt_text(config.elevenlabs_api_key),
        ),
{
    proof {
        law_precedence(
            opt_text(config.cli_elevenlabs_api_key),
            opt_text(config.env_elevenlabs_api_key),
            opt_text(config.elevenlabs_api_key),
            Seq::empty(),
        );
    }
    layer(
        copy_text(&config.cli_elevenlabs_api_key),
        copy_text(&config.env_elevenlabs_api_key),
        copy_text(&config.elevenlabs_api_key),
    )
}

/// The Hindsight key that a synchronisation stores.
pub fn hindsight_api_key_to_sync(config: &Config) -> (key: Option<String>)
    ensures
        opt_text(key) == layered(
            opt_text(config.cli_hindsight_api_key),
            opt_text(config.env_hindsight_api_key),
            opt_text(config.hindsight_api_key),
        ),
        takes_precedence(
            opt_text(key),
            opt_text(config.cli_hindsight_api_key),
            opt_text(config.env_hindsight_api_key),
            opt_text(config.hindsight_api_key),
        ),
{
    proof {
        law_precedence(
            opt_text(config.cli_hindsight_api_key),
            opt_text(config.env_hindsight_api_key),
            opt_text(config.hindsight_api_key),
            Seq::empty(),
        );
    }
    layer(
        copy_text(&config.cli_hindsight_api_key),
        copy_text(&config.env_hindsight_api_key),
        copy_text(&config.hindsight_api_key),
    )
}

/// The configuration file that `init` creates: the one that was named, or else the default one.
pub fn init_config_path(config: &Option<NativePath>, home: &Option<NativePath>) -> (r: Result<
    NativePath,
    Error,
>)
    ensures
        match r {
            Ok(path) => match *config {
                Some(named) => path@ == named@,
                None => *home is Some && path@ == config_path_in(home->0@),
            },
            Err(e) => *config is None && *home is None && e@ == ErrorView::HomeNotSet,
        },
{
    match config {
        Some(named) => Ok(named.copy()),
        None => default_config_path(home),
    }
}

/// What `init` writes, and what it says when that is done.
#[derive(Debug)]
pub struct InitPlan {
    pub contents: String,
    pub announcement: String,
}

/// Decides whether `init` writes the configuration file: one that is there stays, unless the user
/// insists.
pub fn init_config(path: &NativePath, present: bool, force: bool) -> (r: Result<InitPlan, Error>)
    ensures
        match r {
            Ok(plan) => (force || !present) && plan.contents@ == DEFAULT_CONFIG@
                && plan.announcement@ == "Created config file at "@ + lossy_text(path@),
            Err(e) => present && !force && e@ == (ErrorView::ConfigExists {
                path: lossy_text(path@),
            }),
        },
{
    let shown: String = path.display();
    if present && !force {
        return Err(Error::ConfigExists { path: shown });
    }
    let mut announcement: String = "Created config file at ".to_owned();
    announcement.append(shown.as_str());
    Ok(InitPlan { contents: DEFAULT_CONFIG.to_owned(), announcement })
}

/// Whether a setting is there and not empty.
pub open spec fn given<T>(value: Option<Seq<T>>) -> bool {
    value is Some && value->0.len() > 0
}

/// Whether a loaded setting is the one that precedence demands: that of the flag if it is given,
/// otherwise that of the variable if it is given, otherwise that of the profile if it is given,
/// otherwise none.
pub open spec fn takes_precedence<T>(
    loaded: Option<Seq<T>>,
    flag: Option<Seq<T>>,
    variable: Option<Seq<T>>,
    profile: Option<Seq<T>>,
) -> bool {
    &&& given(flag) ==> loaded == flag
    &&& !given(flag) && given(variable) ==> loaded == variable
    &&& !given(flag) && !given(variable) && given(profile) ==> loaded == profile
    &&& !given(flag) && !given(variable) && !given(profile) ==> loaded is None
}

/// The profile that a run uses is that of the flag, otherwise that of the variable, otherwise
/// `default`.
pub proof fn law_chosen_profile(args: CliArgs, env: Environment)
    ensures
        args.profile is Some && args.profile->0@.len() > 0 ==> chosen_profile(args, env)
            == args.profile->0@,
        !given(opt_text(args.profile)) && env.profile is Some && env.profile->0@.len() > 0
            ==> chosen_profile(args, env) == env.profile->0@,
        !given(opt_text(args.profile)) && !given(opt_text(env.profile)) ==> chosen_profile(
            args,
            env,
        ) == "default"@,
{
    law_precedence(opt_text(args.profile), opt_text(env.profile), None, DEFAULT_PROFILE@);
}

/// Every setting that was loaded is that of its flag, otherwise that of its variable, otherwise
/// that of the profile; where none of them is given, it is the default, or none where there is no
/// default.
pub proof fn law_loaded_settings(
    config: Config,
    args: CliArgs,
    env: Environment,
    p: ProfileConfig,
)
    requires
        config.loaded_from(args, env, p),
    ensures
        takes_precedence(
            opt_text(config.hindsight_url),
            opt_text(args.hindsight_url),
            opt_text(env.hindsight_url),
            opt_text(p.hindsight_url),
        ),
        takes_precedence(
            opt_text(config.bank),
            opt_text(args.bank),
            opt_text(env.bank),
            opt_text(p.bank),
        ),
        takes_precedence(
            opt_text(config.strategy),
            opt_text(args.strategy),
            opt_text(env.strategy),
            opt_text(p.strategy),
        ),
        ({
            let none = !given(opt_text(args.language)) && !given(opt_text(env.language)) && !given(
                opt_text(p.language),
            );
            &&& none ==> config.language@ == "eng"@
            &&& !none ==> takes_precedence(
                Some(config.language@),
                opt_text(args.language),
                opt_text(env.language),
                opt_text(p.language),
            )
        }),
        ({
            let none = !given(opt_text(args.model)) && !given(opt_text(env.model)) && !given(
                opt_text(p.model),
            );
            &&& none ==> config.model@ == "scribe_v2"@
            &&& !none ==> takes_precedence(
                Some(config.model@),
                opt_text(args.model),
                opt_text(env.model),
                opt_text(p.model),
            )
        }),
        ({
            let none = !given(opt_text(args.context)) && !given(opt_text(env.context)) && !given(
                opt_text(p.context),
            );
            &&& none ==> config.context@ == "user recorded voice memo"@
            &&& !none ==> takes_precedence(
                Some(config.context@),
                opt_text(args.context),
                opt_text(env.context),
                opt_text(p.context),
            )
        }),
        ({
            let none = !given(opt_path(args.socket_path)) && !given(opt_path(env.socket_path))
                && !given(opt_path(p.socket_path));
            &&& none ==> config.socket_path@ == socket_path_in(env.home->0@)
            &&& !none ==> takes_precedence(
                Some(config.socket_path@),
                opt_path(args.socket_path),
                opt_path(env.socket_path),
                opt_path(p.socket_path),
            )
        }),
        takes_precedence(
            opt_list(config.tags),
            Some(kept(non_empty(texts(args.tags@)))),
            match env.tags {
                Some(list) => Some(kept(tags_in(list@))),
                None => None,
            },
            opt_list(p.tags),
        ),
{
    law_precedence(
        opt_text(args.hindsight_url),
        opt_text(env.hindsight_url),
        opt_text(p.hindsight_url),
        Seq::empty(),
    );
    law_precedence(opt_text(args.bank), opt_text(env.bank), opt_text(p.bank), Seq::empty());
    law_precedence(
        opt_text(args.strategy),
        opt_text(env.strategy),
        opt_text(p.strategy),
        Seq::empty(),
    );
    law_precedence(
        opt_text(args.language),
        opt_text(env.language),
        opt_text(p.language),
        DEFAULT_LANGUAGE@,
    );
    law_precedence(opt_text(args.model), opt_text(env.model), opt_text(p.model), DEFAULT_MODEL@);
    law_precedence(
        opt_text(args.context),
        opt_text(env.context),
        opt_text(p.context),
        DEFAULT_CONTEXT@,
    );
    law_precedence(
        opt_path(args.socket_path),
        opt_path(env.socket_path),
        opt_path(p.socket_path),
        socket_path_in(env.home->0@),
    );
    law_precedence(
        non_empty(texts(args.tags@)),
        match env.tags {
            Some(list) => tags_in(list@),
            None => None,
        },
        opt_list(p.tags),
        Seq::empty(),
    );
}

/// The keys are loaded as they were given: those of the flags, those of the variables and those of
/// the profile, each by itself.
pub proof fn law_loaded_keys(config: Config, args: CliArgs, env: Environment, p: ProfileConfig)
    requires
        config.loaded_from(args, env, p),
    ensures
        opt_text(config.cli_elevenlabs_api_key) == opt_text(args.elevenlabs_api_key),
        opt_text(config.env_elevenlabs_api_key) == opt_text(env.elevenlabs_api_key),
        opt_text(config.elevenlabs_api_key) == opt_text(p.elevenlabs_api_key),
        opt_text(config.cli_hindsight_api_key) == opt_text(args.hindsight_api_key),
        opt_text(config.env_hindsight_api_key) == opt_text(env.hindsight_api_key),
        opt_text(config.hindsight_api_key) == opt_text(p.hindsight_api_key),
{
}

/// The profile that was loaded is named as the run was told.
pub proof fn law_loaded_profile(config: Config, args: CliArgs, env: Environment, p: ProfileConfig)
    requires
        config.loaded_from(args, env, p),
    ensures
        given(opt_text(args.profile)) ==> config.profile@ == args.profile->0@,
        !given(opt_text(args.profile)) && given(opt_text(env.profile)) ==> config.profile@
            == env.profile->0@,
        !given(opt_text(args.profile)) && !given(opt_text(env.profile)) ==> config.profile@
            == "default"@,
{
    law_chosen_profile(args, env);
}

/// The metadata that was loaded is that of the flags, if there are any; otherwise that of the
/// variable, if it has an entry; otherwise that of the profile, if it has an entry; otherwise there
/// is none.
pub proof fn law_loaded_metadata(config: Config, args: CliArgs, env: Environment, p: ProfileConfig)
    requires
        config.loaded_from(args, env, p),
        load_fault(args, env) is None,
    ensures
        ({
            let none = Map::<Seq<char>, Seq<char>>::empty();
            let of_flags = entries_map(texts(args.metadata@));
            let of_variable = json_object_of_strings(env.metadata->0@);
            let in_flags = args.metadata@.len() > 0;
            let in_variable = env.metadata is Some && of_variable->Ok_0 != none;
            let in_profile = p.metadata is Some && p.metadata->0@ != none;
            &&& in_flags ==> of_flags is Ok && opt_map(config.metadata) == Some(of_flags->Ok_0)
            &&& env.metadata is Some ==> of_variable is Ok
            &&& !in_flags && in_variable ==> opt_map(config.metadata) == Some(of_variable->Ok_0)
            &&& !in_flags && !in_variable && in_profile ==> opt_map(config.metadata) == Some(
                p.metadata->0@,
            )
            &&& !in_flags && !in_variable && !in_profile ==> config.metadata is None
        }),
{
    law_metadata_precedence(
        metadata_of_flags(texts(args.metadata@))->Ok_0,
        metadata_of_variable(opt_text(env.metadata))->Ok_0,
        opt_map(p.metadata),
    );
    let entries = texts(args.metadata@);
    if entries.len() > 0 {
        let last = entries.last();
        let front = entries.drop_last();
        assert(entries_map(entries) is Ok);
        assert(entries_map(entries)->Ok_0.dom().contains(entry_key(last)));
    }
}

/// Loading fails if and only if the home directory is unknown, an entry of the flags is not
/// `KEY=VALUE`, or the variable is no object of strings; the first of these is what is reported.
pub proof fn law_load_faults(args: CliArgs, env: Environment)
    ensures
        ({
            let entries = texts(args.metadata@);
            let read = json_object_of_strings(env.metadata->0@);
            let bad_flags = entries_map(entries) is Err;
            let bad_variable = env.metadata is Some && read is Err;
            &&& load_fault(args, env) is None <==> env.home is Some && !bad_flags && !bad_variable
            &&& env.home is None ==> load_fault(args, env) == Some(ErrorView::HomeNotSet)
            &&& env.home is Some && bad_flags ==> load_fault(args, env) == Some(
                entries_map(entries)->Err_0,
            )
            &&& env.home is Some && !bad_flags && bad_variable ==> load_fault(args, env) == Some(
                ErrorView::MetadataJson { reason: read->Err_0 },
            )
        }),
{
}

/// The ElevenLabs key of a run with the given settings; `stored` is what the Keychain holds.
pub open spec fn elevenlabs_key(config: Config, stored: Option<Seq<char>>) -> Option<Seq<char>> {
    key_to_use(
        opt_text(config.cli_elevenlabs_api_key),
        opt_text(config.env_elevenlabs_api_key),
        stored,
        opt_text(config.elevenlabs_api_key),
    )
}

/// The Hindsight key of a run with the given settings; `stored` is what the Keychain holds.
pub open spec fn hindsight_key(config: Config, stored: Option<Seq<char>>) -> Option<Seq<char>> {
    key_to_use(
        opt_text(config.cli_hindsight_api_key),
        opt_text(config.env_hindsight_api_key),
        stored,
        opt_text(config.hindsight_api_key),
    )
}

/// Whether a key is the one that precedence demands: that of the flag if it is given, otherwise
/// that of the variable if it is given, otherwise the stored one if there is one, otherwise that of
/// the profile.
pub open spec fn key_takes_precedence(
    key: Option<Seq<char>>,
    flag: Option<Seq<char>>,
    variable: Option<Seq<char>>,
    stored: Option<Seq<char>>,
    profile: Option<Seq<char>>,
) -> bool {
    &&& given(flag) ==> key == flag
    &&& !given(flag) && given(variable) ==> key == variable
    &&& !given(flag) && !given(variable) && stored is Some ==> key == stored
    &&& !given(flag) && !given(variable) && stored is None ==> key == profile
}

/// The keys of a run follow their precedence.
pub proof fn law_keys_of_a_run(config: Config, stored: Option<Seq<char>>)
    ensures
        key_takes_precedence(
            elevenlabs_key(config, stored),
            opt_text(config.cli_elevenlabs_api_key),
            opt_text(config.env_elevenlabs_api_key),
            stored,
            opt_text(config.elevenlabs_api_key),
        ),
        key_takes_precedence(
            hindsight_key(config, stored),
            opt_text(config.cli_hindsight_api_key),
            opt_text(config.env_hindsight_api_key),
            stored,
            opt_text(config.hindsight_api_key),
        ),
{
    law_key_precedence(
        opt_text(config.cli_elevenlabs_api_key),
        opt_text(config.env_elevenlabs_api_key),
        stored,
        opt_text(config.elevenlabs_api_key),
    );
    law_key_precedence(
        opt_text(config.cli_hindsight_api_key),
        opt_text(config.env_hindsight_api_key),
        stored,
        opt_text(config.hindsight_api_key),
    );
}

/// The Keychain is asked if and only if neither a flag nor a variable gives a key.
pub proof fn law_given_keys_come_first(cli: Option<Seq<char>>, env: Option<Seq<char>>)
    ensures
        given_key(cli, env) is None <==> !given(cli) && !given(env),
{
    reveal_with_fuel(first_present, 3);
    assert(seq![cli, env].drop_first() == seq![env]);
}

} // verus!
