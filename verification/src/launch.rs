//! From command-line arguments and a prepared sandbox to the launch options and
//! configuration of the proxy.

use crate::text;
use std::path::PathBuf;
use vstd::prelude::*;

verus! {

// ---------------------------------------------------------------------------
// Inputs
// ---------------------------------------------------------------------------

/// The network arguments of the command line.
pub struct SandboxArgs {
    pub allow_net: bool,
    pub external_proxy: Option<String>,
    pub external_proxy_bypass: Vec<String>,
    pub network_profile: Option<String>,
    pub allow_proxy: Vec<String>,
    pub proxy_credential: Vec<String>,
    pub allow_bind: Vec<u16>,
    pub proxy_port: Option<u16>,
    pub network_prompt: bool,
    pub profile: Option<String>,
}

/// The `network_prompt` object of a profile.
pub struct NetworkPromptConfig {
    pub enabled: bool,
    pub learned_policy_path: Option<PathBuf>,
    pub prompt_timeout_secs: Option<u64>,
    pub on_unavailable: Option<String>,
}

/// How the network is restricted.
pub enum NetworkMode {
    Blocked,
    AllowAll,
    /// Only the proxy on a local port can be reached, and some ports bound.
    ProxyOnly { port: u16, bind_ports: Vec<u16> },
}

/// What matters of the path of a profile file.
pub struct ProfilePath {
    /// The file name, where there is one and it is text.
    pub file_name: Option<String>,
}

/// A sandbox as the profile prepared it. `C` is what custom credentials are.
pub struct PreparedSandbox<C> {
    pub network_mode: NetworkMode,
    pub network_profile: Option<String>,
    pub allow_domain: Vec<String>,
    pub credentials: Vec<String>,
    pub custom_credentials: C,
    pub upstream_proxy: Option<String>,
    pub upstream_bypass: Vec<String>,
    pub listen_ports: Vec<u16>,
    pub open_url_origins: Vec<String>,
    pub open_url_allow_localhost: bool,
    pub allow_launch_services_active: bool,
    pub network_prompt: Option<NetworkPromptConfig>,
    pub profile_path: Option<ProfilePath>,
}

/// Which variables name a place for the user's configuration.
#[derive(Debug, Clone, Copy, PartialEq, Eq, Structural)]
pub struct ConfigEnv {
    /// Whether `XDG_CONFIG_HOME` is set and not empty.
    pub xdg_config_home: bool,
    /// Whether `HOME` is set.
    pub home: bool,
}

// ---------------------------------------------------------------------------
// Results
// ---------------------------------------------------------------------------

/// The directory of the user's configuration.
#[derive(Debug, Clone, Copy, PartialEq, Eq, Structural)]
pub enum ConfigDir {
    /// `$XDG_CONFIG_HOME`
    XdgConfigHome,
    /// `$HOME/.config`
    HomeDotConfig,
}

/// Where permanent decisions are stored.
pub enum LearnedPolicyPath {
    /// The path that the profile names.
    Explicit(PathBuf),
    /// A file of this name in the directory of the profile file.
    BesideProfile(String),
    /// The path of the profile file with this text behind it.
    ProfileWithSuffix(String),
    /// A file below the user's configuration, by the names that lead to it.
    UserConfig(ConfigDir, Vec<String>),
}

/// What keeps a launch from being prepared.
pub enum LaunchError {
    /// Neither `$HOME` nor `$XDG_CONFIG_HOME` is set.
    NoConfigDir,
    /// Prompts are enabled without a path for what they decide.
    NoLearnedPolicyPath,
    /// `network_prompt.on_unavailable` is neither `allow` nor `deny`.
    InvalidOnUnavailable(String),
}

/// The settings that arguments and profile come to together.
pub struct EffectiveProxySettings {
    pub network_profile: Option<String>,
    pub allow_domain: Vec<String>,
    pub credentials: Vec<String>,
}

/// How to launch the proxy.
pub struct ProxyLaunchOptions<C> {
    pub active: bool,
    pub network_profile: Option<String>,
    pub allow_domain: Vec<String>,
    pub credentials: Vec<String>,
    pub custom_credentials: C,
    pub upstream_proxy: Option<String>,
    pub upstream_bypass: Vec<String>,
    pub allow_bind_ports: Vec<u16>,
    pub proxy_port: Option<u16>,
    pub open_url_origins: Vec<String>,
    pub open_url_allow_localhost: bool,
    pub allow_launch_services_active: bool,
    pub interactive_enabled: bool,
    pub interactive_learned_path: Option<LearnedPolicyPath>,
    pub interactive_timeout_secs: Option<u64>,
    pub interactive_on_unavailable: Option<String>,
}

/// What to tell the user about a launch.
#[derive(Debug, Clone, Copy, PartialEq, Eq, Structural)]
pub enum LaunchWarning {
    Nothing,
    /// Log that the blocked network overrides the proxy settings.
    Log,
    /// Log it, and print it too.
    LogAndPrint,
}

/// Launch options and what to tell the user about them.
pub struct PreparedLaunch<C> {
    pub options: ProxyLaunchOptions<C>,
    pub warning: LaunchWarning,
}

// ---------------------------------------------------------------------------
// Small things
// ---------------------------------------------------------------------------

/// The text of an optional string.
pub open spec fn optional_text(o: Option<String>) -> Option<Seq<char>> {
    match o {
        Some(s) => Some(s@),
        None => None,
    }
}

/// The first of two options that holds something.
pub open spec fn first_of<T>(a: Option<T>, b: Option<T>) -> Option<T> {
    match a {
        Some(_) => a,
        None => b,
    }
}

fn clone_optional(o: &Option<String>) -> (r: Option<String>)
    ensures
        r == *o,
{
    match o {
        Some(s) => Some(s.clone()),
        None => None,
    }
}

fn first_text(a: &Option<String>, b: &Option<String>) -> (r: Option<String>)
    ensures
        r == first_of(*a, *b),
{
    if a.is_some() {
        clone_optional(a)
    } else {
        clone_optional(b)
    }
}

fn concat_strings(a: &Vec<String>, b: &Vec<String>) -> (r: Vec<String>)
    ensures
        r@ == a@ + b@,
{
    let mut out = text::clone_strings(a);
    let mut rest = text::clone_strings(b);
    out.append(&mut rest);
    out
}

// ---------------------------------------------------------------------------
// Ports
// ---------------------------------------------------------------------------

/// Strictly increasing numbers.
pub open spec fn is_increasing(ports: Seq<u16>) -> bool {
    forall|i: int, j: int| 0 <= i < j < ports.len() ==> ports[i] < ports[j]
}

/// Puts a port into its place among increasing ones, unless it is there.
fn insert_port(ports: &mut Vec<u16>, port: u16)
    requires
        is_increasing(old(ports)@),
    ensures
        is_increasing(final(ports)@),
        forall|x: u16| #[trigger] final(ports)@.contains(x) <==> old(ports)@.contains(x) || x == port,
{
    let ghost before = ports@;
    let mut k: usize = 0;
    while k < ports.len() && ports[k] < port
        invariant
            k <= ports@.len(),
            ports@ == before,
            forall|i: int| 0 <= i < k ==> before[i] < port,
        decreases ports@.len() - k,
    {
        k += 1;
    }
    if k < ports.len() && ports[k] == port {
        assert(before[k as int] == port);
        return ;
    }
    ports.insert(k, port);
    proof {
        let after = ports@;
        assert(after[k as int] == port);
        assert forall|x: u16| #[trigger] after.contains(x) <==> before.contains(x) || x == port by {
            if before.contains(x) {
                let i = choose|i: int| 0 <= i < before.len() && before[i] == x;
                if i < k {
                    assert(after[i] == x);
                } else {
                    assert(after[i + 1] == x);
                }
            }
            if after.contains(x) && x != port {
                let i = choose|i: int| 0 <= i < after.len() && after[i] == x;
                if i < k {
                    assert(before[i] == x);
                } else {
                    assert(before[i - 1] == x);
                }
            }
        }
    }
}

/// The ports of two lists, sorted, each once.
#[must_use]
pub fn merge_dedup_ports(a: &Vec<u16>, b: &Vec<u16>) -> (r: Vec<u16>)
    ensures
        is_increasing(r@),
        forall|x: u16| #[trigger] r@.contains(x) <==> a@.contains(x) || b@.contains(x),
{
    let mut ports: Vec<u16> = Vec::new();
    let mut i: usize = 0;
    while i < a.len()
        invariant
            i <= a@.len(),
            is_increasing(ports@),
            forall|x: u16| #[trigger] ports@.contains(x) <==> a@.take(i as int).contains(x),
        decreases a@.len() - i,
    {
        insert_port(&mut ports, a[i]);
        proof {
            lemma_contains_after_push(a@, i as int);
        }
        i += 1;
    }
    assert(a@.take(a@.len() as int) =~= a@);
    let mut j: usize = 0;
    while j < b.len()
        invariant
            j <= b@.len(),
            is_increasing(ports@),
            forall|x: u16| #[trigger]
                ports@.contains(x) <==> a@.contains(x) || b@.take(j as int).contains(x),
        decreases b@.len() - j,
    {
        insert_port(&mut ports, b[j]);
        proof {
            lemma_contains_after_push(b@, j as int);
        }
        j += 1;
    }
    assert(b@.take(b@.len() as int) =~= b@);
    ports
}

/// The first `i + 1` items are the first `i` and the next one.
proof fn lemma_contains_after_push(s: Seq<u16>, i: int)
    requires
        0 <= i < s.len(),
    ensures
        forall|x: u16| #[trigger] s.take(i + 1).contains(x) <==> s.take(i).contains(x) || x == s[i],
{
    let shorter = s.take(i);
    let longer = s.take(i + 1);
    assert forall|x: u16| #[trigger] longer.contains(x) <==> shorter.contains(x) || x == s[i] by {
        if shorter.contains(x) {
            let k = choose|k: int| 0 <= k < shorter.len() && shorter[k] == x;
            assert(longer[k] == x);
        }
        if x == s[i] {
            assert(longer[i] == x);
        }
        if longer.contains(x) && x != s[i] {
            let k = choose|k: int| 0 <= k < longer.len() && longer[k] == x;
            assert(shorter[k] == x);
        }
    }
}

// ---------------------------------------------------------------------------
// Effective settings
// ---------------------------------------------------------------------------

/// Whether settings are those that arguments and profile come to together.
pub open spec fn are_effective_settings<C>(
    settings: EffectiveProxySettings,
    args: SandboxArgs,
    prepared: PreparedSandbox<C>,
) -> bool {
    if args.allow_net {
        &&& settings.network_profile is None
        &&& settings.allow_domain@.len() == 0
        &&& settings.credentials@.len() == 0
    } else {
        &&& settings.network_profile == first_of(args.network_profile, prepared.network_profile)
        &&& settings.allow_domain@ == prepared.allow_domain@ + args.allow_proxy@
        &&& settings.credentials@ == prepared.credentials@ + args.proxy_credential@
    }
}

/// The settings that arguments and profile come to together: with the network
/// open none, else those of the profile with those of the arguments behind them.
/// A network profile on the command line replaces that of the profile.
#[must_use]
pub fn resolve_effective_proxy_settings<C>(args: &SandboxArgs, prepared: &PreparedSandbox<C>) -> (r:
    EffectiveProxySettings)
    ensures
        are_effective_settings(r, *args, *prepared),
        args.allow_net ==> r.network_profile is None && r.allow_domain@ == Seq::<String>::empty()
            && r.credentials@ == Seq::<String>::empty(),
        !args.allow_net ==> r.network_profile == first_of(
            args.network_profile,
            prepared.network_profile,
        ) && r.allow_domain@ == prepared.allow_domain@ + args.allow_proxy@ && r.credentials@
            == prepared.credentials@ + args.proxy_credential@,
{
    if args.allow_net {
        return EffectiveProxySettings {
            network_profile: None,
            allow_domain: Vec::new(),
            credentials: Vec::new(),
        };
    }
    EffectiveProxySettings {
        network_profile: first_text(&args.network_profile, &prepared.network_profile),
        allow_domain: concat_strings(&prepared.allow_domain, &args.allow_proxy),
        credentials: concat_strings(&prepared.credentials, &args.proxy_credential),
    }
}

// ---------------------------------------------------------------------------
// Learned-policy path
// ---------------------------------------------------------------------------

/// The directory of the user's configuration.
pub open spec fn config_dir(env: ConfigEnv) -> Option<ConfigDir> {
    if env.xdg_config_home {
        Some(ConfigDir::XdgConfigHome)
    } else if env.home {
        Some(ConfigDir::HomeDotConfig)
    } else {
        None
    }
}

/// The directory of the user's configuration.
pub fn user_config_dir(env: &ConfigEnv) -> (r: Result<ConfigDir, LaunchError>)
    ensures
        match r {
            Ok(dir) => config_dir(*env) == Some(dir),
            Err(error) => config_dir(*env) is None && error is NoConfigDir,
        },
{
    if env.xdg_config_home {
        return Ok(ConfigDir::XdgConfigHome);
    }
    if env.home {
        return Ok(ConfigDir::HomeDotConfig);
    }
    Err(LaunchError::NoConfigDir)
}

impl ConfigDir {
    /// The names that lead to the directory from the one that its variable
    /// holds.
    pub open spec fn below(self) -> Seq<Seq<char>> {
        match self {
            ConfigDir::XdgConfigHome => Seq::empty(),
            ConfigDir::HomeDotConfig => seq![".config"@],
        }
    }

    /// The names that lead to the directory from the one that its variable
    /// holds.
    #[must_use]
    pub fn below_variable(&self) -> (r: Vec<String>)
        ensures
            text::texts(r@) == self.below(),
    {
        let mut names: Vec<String> = Vec::new();
        match self {
            ConfigDir::XdgConfigHome => {},
            ConfigDir::HomeDotConfig => {
                names.push(".config".to_owned());
            },
        }
        assert(text::texts(names@) =~= self.below());
        names
    }
}

/// A character that is safe in a file name.
pub open spec fn is_safe(c: char) -> bool {
    ('a' <= c && c <= 'z') || ('A' <= c && c <= 'Z') || ('0' <= c && c <= '9') || c == '-' || c
        == '_'
}

/// A text with an underscore in the place of every character that is not safe.
pub open spec fn sanitized(s: Seq<char>) -> Seq<char> {
    s.map_values(|c: char| if is_safe(c) { c } else { '_' })
}

/// A path that reads the same on every platform: without backslashes and
/// colons, and not beginning with two slashes.
pub open spec fn is_portable(path: Seq<char>) -> bool {
    &&& !path.contains('\\')
    &&& !path.contains(':')
    &&& !(path.len() >= 2 && path[0] == '/' && path[1] == '/')
}

/// Whether a piece of a path counts: empty ones and single dots do not.
pub open spec fn is_path_name() -> spec_fn(Seq<char>) -> bool {
    |piece: Seq<char>| piece.len() > 0 && piece != "."@
}

/// The names in a portable path, from the root down.
pub open spec fn path_names(path: Seq<char>) -> Seq<Seq<char>> {
    text::split_on(path, '/').filter(is_path_name())
}

/// Whether `i` is where the last dot of a name stands.
pub open spec fn is_last_dot(name: Seq<char>, i: int) -> bool {
    &&& 0 <= i < name.len()
    &&& name[i] == '.'
    &&& forall|j: int| i < j < name.len() ==> name[j] != '.'
}

/// The part of a file name before its last dot; all of it where it has no dot
/// but perhaps at the beginning.
pub open spec fn stem_of(name: Seq<char>) -> Seq<char> {
    if exists|i: int| i > 0 && is_last_dot(name, i) {
        name.take(choose|i: int| i > 0 && is_last_dot(name, i))
    } else {
        name
    }
}

/// The stem of the file that a portable path names. One that has no names, or
/// ends in two dots, names none.
pub open spec fn path_stem(path: Seq<char>) -> Option<Seq<char>> {
    let names = path_names(path);
    if names.len() == 0 || names.last() == ".."@ {
        None
    } else {
        Some(stem_of(names.last()))
    }
}

/// `Path::file_stem`: the final component of a path without its extension. None
/// where the path has no such component or ends in `..`. A stem is a part of the
/// path in any case; which part of a path that is not portable depends on the
/// platform and is left unsaid.
#[verifier::external_body]
fn file_stem(path: &str) -> (r: Option<String>)
    ensures
        is_portable(path@) ==> optional_text(r) == path_stem(path@),
        r is Some ==> text::has_substring(path@, r->Some_0@),
{
    std::path::Path::new(path).file_stem().and_then(|s| s.to_str()).map(|s| s.to_owned())
}

/// Replaces every character that is not safe in a file name.
#[must_use]
pub fn sanitize_component(last: &str) -> (r: String)
    ensures
        r@ == sanitized(last@),
{
    let chars = text::to_chars(last);
    let mut out = String::new();
    let mut i: usize = 0;
    while i < chars.len()
        invariant
            chars@ == last@,
            i <= chars@.len(),
            out@ == sanitized(last@.take(i as int)),
        decreases chars@.len() - i,
    {
        let c = chars[i];
        let ghost before = out@;
        if ('a' <= c && c <= 'z') || ('A' <= c && c <= 'Z') || ('0' <= c && c <= '9') || c == '-'
            || c == '_' {
            out.push(c);
        } else {
            out.push('_');
        }
        assert(out@ =~= sanitized(last@.take(i + 1)));
        i += 1;
    }
    assert(last@.take(last@.len() as int) =~= last@);
    out
}

/// What a profile name becomes as part of a file name, for a portable one: the
/// stem of the file that it names, or all of it where it names none, with an
/// underscore in the place of every character that is not safe.
pub open spec fn sanitized_profile(name: Seq<char>) -> Seq<char> {
    match path_stem(name) {
        Some(stem) => sanitized(stem),
        None => sanitized(name),
    }
}

/// What a profile name becomes as part of a file name, given the stem that the
/// platform reads in it: the stem, or all of the name where it reads none, with
/// an underscore in the place of every character that is not safe.
#[must_use]
pub fn sanitize_stem(stem: Option<String>, name: &str) -> (r: String)
    ensures
        r@ == sanitized(
            match stem {
                Some(stem) => stem@,
                None => name@,
            },
        ),
{
    match stem {
        Some(stem) => sanitize_component(stem.as_str()),
        None => sanitize_component(name),
    }
}

/// Whether a text is a part of a profile name with an underscore in the place of
/// every character that is not safe.
pub open spec fn is_sanitized_part(s: Seq<char>, name: Seq<char>) -> bool {
    exists|part: Seq<char>| #[trigger] text::has_substring(name, part) && s == sanitized(part)
}

/// Strips path components from a profile name and keeps it filesystem-safe.
/// Which part of a name that is not portable is left depends on the platform;
/// what is left of it is sanitized in any case.
#[must_use]
pub fn sanitize_profile_name(name: &str) -> (r: String)
    ensures
        forall|i: int| 0 <= i < r@.len() ==> is_safe(#[trigger] r@[i]),
        is_sanitized_part(r@, name@),
        is_portable(name@) ==> r@ == sanitized_profile(name@),
{
    let stem = file_stem(name);
    proof {
        assert(name@.subrange(0, name@.len() as int) =~= name@);
        assert(text::occurs_at(name@, name@, 0));
        assert(text::has_substring(name@, name@));
    }
    sanitize_stem(stem, name)
}

/// The name of the file for a profile under the user's configuration.
fn learned_file_name(profile: &Option<String>) -> (r: String)
    ensures
        is_learned_file_name(r@, *profile),
{
    let mut name = match profile {
        Some(profile) => sanitize_profile_name(profile.as_str()),
        None => "ad-hoc".to_owned(),
    };
    let ghost stem = name@;
    name.append(".json");
    assert(name@.take(stem.len() as int) =~= stem);
    name
}

/// The name of the file for a profile under the user's configuration: its
/// sanitized name with `.json`, or `ad-hoc.json` without a profile.
pub open spec fn is_learned_file_name(name: Seq<char>, profile: Option<String>) -> bool {
    match profile {
        None => name == "ad-hoc"@ + ".json"@,
        Some(profile) => {
            &&& name.len() >= ".json"@.len()
            &&& name == name.take(name.len() - ".json"@.len()) + ".json"@
            &&& forall|i: int|
                0 <= i < name.len() - ".json"@.len() ==> is_safe(#[trigger] name[i])
            &&& is_sanitized_part(name.take(name.len() - ".json"@.len()), profile@)
            &&& is_portable(profile@) ==> name == sanitized_profile(profile@) + ".json"@
        },
    }
}

/// Whether names lead from the directory of the user's configuration to the file
/// for a profile: `nono/learned/<profile-name>.json`.
pub open spec fn are_learned_names(names: Seq<Seq<char>>, profile: Option<String>) -> bool {
    &&& names.len() == 3
    &&& names[0] == "nono"@
    &&& names[1] == "learned"@
    &&& is_learned_file_name(names[2], profile)
}

/// The names that lead from the directory of the user's configuration to the
/// file for a profile.
fn learned_names(profile: &Option<String>) -> (r: Vec<String>)
    ensures
        are_learned_names(text::texts(r@), *profile),
{
    let names: Vec<String> = vec![
        "nono".to_owned(),
        "learned".to_owned(),
        learned_file_name(profile),
    ];
    assert(text::texts(names@)[0] == names@[0]@);
    assert(text::texts(names@)[1] == names@[1]@);
    assert(text::texts(names@)[2] == names@[2]@);
    names
}

/// Whether a path is the one for permanent decisions. In this order: the path
/// that the profile names, a sibling of the profile file, a file under the
/// user's configuration.
pub open spec fn is_learned_path<C>(
    path: LearnedPolicyPath,
    args: SandboxArgs,
    prepared: PreparedSandbox<C>,
    prompt: Option<NetworkPromptConfig>,
    env: ConfigEnv,
) -> bool {
    match explicit_path(prompt) {
        Some(explicit) => path == LearnedPolicyPath::Explicit(explicit),
        None => match prepared.profile_path {
            Some(profile) => match profile.file_name {
                Some(file_name) => path matches LearnedPolicyPath::BesideProfile(name) && name@
                    == file_name@ + ".learned.json"@,
                None => path matches LearnedPolicyPath::ProfileWithSuffix(suffix) && suffix@
                    == ".learned.json"@,
            },
            None => path matches LearnedPolicyPath::UserConfig(dir, names) && config_dir(env)
                == Some(dir) && are_learned_names(text::texts(names@), args.profile),
        },
    }
}

/// The path that a prompt configuration names.
pub open spec fn explicit_path(prompt: Option<NetworkPromptConfig>) -> Option<PathBuf> {
    match prompt {
        Some(prompt) => prompt.learned_policy_path,
        None => None,
    }
}

/// Whether there is no path for permanent decisions: only the user's
/// configuration is left, and it has no directory.
pub open spec fn lacks_learned_path<C>(
    prepared: PreparedSandbox<C>,
    prompt: Option<NetworkPromptConfig>,
    env: ConfigEnv,
) -> bool {
    explicit_path(prompt) is None && prepared.profile_path is None && config_dir(env) is None
}

/// Resolve the path where permanent interactive decisions should be stored.
///
/// Precedence:
/// 1. Profile override `network_prompt.learned_policy_path`.
/// 2. Sibling of the profile file: `<profile-path>.learned.json`.
/// 3. Under the user config dir: `~/.config/nono/learned/<profile-name>.json`.
/// 4. Final fallback: `~/.config/nono/learned/ad-hoc.json`.
pub fn resolve_learned_policy_path<C>(
    args: &SandboxArgs,
    prepared: &PreparedSandbox<C>,
    profile_prompt: &Option<NetworkPromptConfig>,
    env: &ConfigEnv,
) -> (r: Result<LearnedPolicyPath, LaunchError>)
    ensures
        match r {
            Ok(path) => !lacks_learned_path(*prepared, *profile_prompt, *env) && is_learned_path(
                path,
                *args,
                *prepared,
                *profile_prompt,
                *env,
            ),
            Err(error) => lacks_learned_path(*prepared, *profile_prompt, *env)
                && error is NoConfigDir,
        },
{
    match profile_prompt {
        Some(prompt) => match &prompt.learned_policy_path {
            Some(explicit) => {
                return Ok(LearnedPolicyPath::Explicit(explicit.clone()));
            },
            None => {},
        },
        None => {},
    }
    match &prepared.profile_path {
        Some(profile) => match &profile.file_name {
            Some(file_name) => {
                let mut name = file_name.clone();
                name.append(".learned.json");
                return Ok(LearnedPolicyPath::BesideProfile(name));
            },
            None => {
                return Ok(LearnedPolicyPath::ProfileWithSuffix(".learned.json".to_owned()));
            },
        },
        None => {},
    }
    match user_config_dir(env) {
        Ok(dir) => Ok(LearnedPolicyPath::UserConfig(dir, learned_names(&args.profile))),
        Err(error) => Err(error),
    }
}

// ---------------------------------------------------------------------------
// Launch options
// ---------------------------------------------------------------------------

/// The prompt configuration of a profile, where it is enabled.
pub open spec fn enabled_prompt(prompt: Option<NetworkPromptConfig>) -> Option<NetworkPromptConfig> {
    match prompt {
        Some(config) => if config.enabled {
            prompt
        } else {
            None
        },
        None => None,
    }
}

/// Whether anything asks for a proxy.
pub open spec fn wants_proxy<C>(options: ProxyLaunchOptions<C>) -> bool {
    ||| options.credentials@.len() > 0
    ||| options.network_profile is Some
    ||| options.allow_domain@.len() > 0
    ||| options.upstream_proxy is Some
    ||| options.interactive_enabled
}

/// Whether the launch options are those for arguments and a prepared sandbox.
pub open spec fn are_launch_options<C>(
    options: ProxyLaunchOptions<C>,
    args: SandboxArgs,
    prepared: PreparedSandbox<C>,
    env: ConfigEnv,
) -> bool {
    let prompt = enabled_prompt(prepared.network_prompt);
    &&& options.active == match prepared.network_mode {
        NetworkMode::Blocked => false,
        NetworkMode::ProxyOnly { .. } => true,
        NetworkMode::AllowAll => wants_proxy(options),
    }
    &&& options.network_profile == if args.allow_net {
        None
    } else {
        first_of(args.network_profile, prepared.network_profile)
    }
    &&& options.allow_domain@ == if args.allow_net {
        Seq::empty()
    } else {
        prepared.allow_domain@ + args.allow_proxy@
    }
    &&& options.credentials@ == if args.allow_net {
        Seq::empty()
    } else {
        prepared.credentials@ + args.proxy_credential@
    }
    &&& options.upstream_proxy == if args.allow_net {
        None
    } else {
        first_of(args.external_proxy, prepared.upstream_proxy)
    }
    &&& options.upstream_bypass@ == if args.allow_net {
        Seq::empty()
    } else if args.external_proxy is Some {
        args.external_proxy_bypass@
    } else {
        prepared.upstream_bypass@ + args.external_proxy_bypass@
    }
    &&& is_increasing(options.allow_bind_ports@)
    &&& forall|x: u16| #[trigger]
        options.allow_bind_ports@.contains(x) <==> prepared.listen_ports@.contains(x)
            || args.allow_bind@.contains(x)
    &&& options.proxy_port == args.proxy_port
    &&& options.open_url_origins@ == prepared.open_url_origins@
    &&& options.open_url_allow_localhost == prepared.open_url_allow_localhost
    &&& options.allow_launch_services_active == prepared.allow_launch_services_active
    &&& options.interactive_enabled == (args.network_prompt || prompt is Some)
    &&& match options.interactive_learned_path {
        Some(path) => options.interactive_enabled && is_learned_path(
            path,
            args,
            prepared,
            prompt,
            env,
        ),
        None => !options.interactive_enabled,
    }
    &&& options.interactive_timeout_secs == match prompt {
        Some(config) => config.prompt_timeout_secs,
        None => None,
    }
    &&& options.interactive_on_unavailable == match prompt {
        Some(config) => config.on_unavailable,
        None => None,
    }
}

/// What to tell the user: that a blocked network overrides what asks for a
/// proxy.
pub open spec fn launch_warning<C>(
    options: ProxyLaunchOptions<C>,
    mode: NetworkMode,
    silent: bool,
) -> LaunchWarning {
    if mode is Blocked && wants_proxy(options) {
        if silent {
            LaunchWarning::Log
        } else {
            LaunchWarning::LogAndPrint
        }
    } else {
        LaunchWarning::Nothing
    }
}

/// The prompt configuration of a profile, where it is enabled.
fn copy_enabled_prompt(prompt: &Option<NetworkPromptConfig>) -> (r: Option<NetworkPromptConfig>)
    ensures
        r == enabled_prompt(*prompt),
{
    match prompt {
        Some(config) => {
            if config.enabled {
                Some(
                    NetworkPromptConfig {
                        enabled: config.enabled,
                        learned_policy_path: match &config.learned_policy_path {
                            Some(path) => Some(path.clone()),
                            None => None,
                        },
                        prompt_timeout_secs: config.prompt_timeout_secs,
                        on_unavailable: clone_optional(&config.on_unavailable),
                    },
                )
            } else {
                None
            }
        },
        None => None,
    }
}

/// Prepares the launch of the proxy from the command line and the prepared
/// sandbox. It fails only where prompts are enabled and there is no place for
/// what they decide.
pub fn prepare_proxy_launch_options<C: Clone>(
    args: &SandboxArgs,
    prepared: &PreparedSandbox<C>,
    env: &ConfigEnv,
    silent: bool,
) -> (r: Result<PreparedLaunch<C>, LaunchError>)
    ensures
        match r {
            Ok(launch) => {
                &&& are_launch_options(launch.options, *args, *prepared, *env)
                &&& cloned(prepared.custom_credentials, launch.options.custom_credentials)
                &&& !args.allow_net ==> launch.options.allow_domain@ == prepared.allow_domain@
                    + args.allow_proxy@
                &&& !args.allow_net ==> launch.options.credentials@ == prepared.credentials@
                    + args.proxy_credential@
                &&& prepared.network_mode is Blocked ==> !launch.options.active
                &&& launch.warning == launch_warning(launch.options, prepared.network_mode, silent)
            },
            Err(error) => {
                let prompt = enabled_prompt(prepared.network_prompt);
                &&& error is NoConfigDir
                &&& args.network_prompt || prompt is Some
                &&& lacks_learned_path(*prepared, prompt, *env)
            },
        },
        (r is Err) == ((args.network_prompt || enabled_prompt(prepared.network_prompt) is Some)
            && lacks_learned_path(*prepared, enabled_prompt(prepared.network_prompt), *env)),
{
    let effective = resolve_effective_proxy_settings(args, prepared);
    let network_profile = effective.network_profile;
    let allow_domain = effective.allow_domain;
    let credentials = effective.credentials;
    let allow_bind_ports = merge_dedup_ports(&prepared.listen_ports, &args.allow_bind);

    let upstream_proxy = if args.allow_net {
        None
    } else {
        first_text(&args.external_proxy, &prepared.upstream_proxy)
    };
    let upstream_bypass = if args.allow_net {
        Vec::new()
    } else if args.external_proxy.is_some() {
        text::clone_strings(&args.external_proxy_bypass)
    } else {
        concat_strings(&prepared.upstream_bypass, &args.external_proxy_bypass)
    };

    let profile_prompt = copy_enabled_prompt(&prepared.network_prompt);
    let interactive_enabled = args.network_prompt || profile_prompt.is_some();
    let interactive_learned_path = if interactive_enabled {
        match resolve_learned_policy_path(args, prepared, &profile_prompt, env) {
            Ok(path) => Some(path),
            Err(error) => {
                return Err(error);
            },
        }
    } else {
        None
    };
    let (interactive_timeout_secs, interactive_on_unavailable) = match profile_prompt {
        Some(config) => (config.prompt_timeout_secs, config.on_unavailable),
        None => (None, None),
    };

    let wants = credentials.len() > 0 || network_profile.is_some() || allow_domain.len() > 0
        || upstream_proxy.is_some() || interactive_enabled;
    let (active, warning) = match &prepared.network_mode {
        NetworkMode::Blocked => {
            let warning = if !wants {
                LaunchWarning::Nothing
            } else if silent {
                LaunchWarning::Log
            } else {
                LaunchWarning::LogAndPrint
            };
            (false, warning)
        },
        NetworkMode::ProxyOnly { .. } => (true, LaunchWarning::Nothing),
        NetworkMode::AllowAll => (wants, LaunchWarning::Nothing),
    };

    Ok(
        PreparedLaunch {
            options: ProxyLaunchOptions {
                active,
                network_profile,
                allow_domain,
                credentials,
                custom_credentials: prepared.custom_credentials.clone(),
                upstream_proxy,
                upstream_bypass,
                allow_bind_ports,
                proxy_port: args.proxy_port,
                open_url_origins: text::clone_strings(&prepared.open_url_origins),
                open_url_allow_localhost: prepared.open_url_allow_localhost,
                allow_launch_services_active: prepared.allow_launch_services_active,
                interactive_enabled,
                interactive_learned_path,
                interactive_timeout_secs,
                interactive_on_unavailable,
            },
            warning,
        },
    )
}

} // verus!
