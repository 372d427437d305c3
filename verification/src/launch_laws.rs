//! What holds of every launch.

use crate::decision::{InteractivePolicyConfig, OnUnavailable};
use crate::launch;
use crate::launch::{
    ConfigDir, ConfigEnv, EffectiveProxySettings, LaunchError, LaunchWarning, LearnedPolicyPath,
    NetworkMode, NetworkPromptConfig, PreparedSandbox, ProxyLaunchOptions, SandboxArgs,
};
use crate::runtime;
use crate::text;
use crate::text_laws;
use std::path::PathBuf;
use vstd::prelude::*;

verus! {

/// With a blocked network no proxy is launched, whatever asks for one.
pub proof fn law_blocked_network_launches_no_proxy<C>(
    options: ProxyLaunchOptions<C>,
    args: SandboxArgs,
    prepared: PreparedSandbox<C>,
    env: ConfigEnv,
)
    requires
        launch::are_launch_options(options, args, prepared, env),
        prepared.network_mode is Blocked,
    ensures
        !options.active,
{
}

/// Where the network is not blocked, everything that asks for a proxy gets one,
/// and without anything that asks an open network stays as it is.
pub proof fn law_open_network_launches_what_is_asked_for<C>(
    options: ProxyLaunchOptions<C>,
    args: SandboxArgs,
    prepared: PreparedSandbox<C>,
    env: ConfigEnv,
)
    requires
        launch::are_launch_options(options, args, prepared, env),
        !(prepared.network_mode is Blocked),
    ensures
        launch::wants_proxy(options) ==> options.active,
        prepared.network_mode is AllowAll && !launch::wants_proxy(options) ==> !options.active,
{
}

/// With the network opened on the command line neither a network profile nor
/// domains, credentials or an upstream proxy take effect; only prompts can ask
/// for a proxy then.
pub proof fn law_open_network_drops_proxy_settings<C>(
    options: ProxyLaunchOptions<C>,
    args: SandboxArgs,
    prepared: PreparedSandbox<C>,
    env: ConfigEnv,
)
    requires
        launch::are_launch_options(options, args, prepared, env),
        args.allow_net,
    ensures
        options.network_profile is None,
        options.allow_domain@.len() == 0,
        options.credentials@.len() == 0,
        options.upstream_proxy is None,
        options.upstream_bypass@.len() == 0,
        launch::wants_proxy(options) == options.interactive_enabled,
{
}

/// The flag of the command line enables prompts, whatever the profile says.
pub proof fn law_prompt_flag_wins<C>(
    options: ProxyLaunchOptions<C>,
    args: SandboxArgs,
    prepared: PreparedSandbox<C>,
    env: ConfigEnv,
)
    requires
        launch::are_launch_options(options, args, prepared, env),
        args.network_prompt,
    ensures
        options.interactive_enabled,
        options.interactive_learned_path is Some,
{
}

/// A prompt configuration that is not enabled has no effect.
pub proof fn law_disabled_prompt_has_no_effect(config: NetworkPromptConfig)
    requires
        !config.enabled,
    ensures
        launch::enabled_prompt(Some(config)) == launch::enabled_prompt(None),
{
}

/// A launch that was prepared has the path that its prompt configuration needs.
pub proof fn law_prepared_launch_has_path<C>(
    options: ProxyLaunchOptions<C>,
    args: SandboxArgs,
    prepared: PreparedSandbox<C>,
    env: ConfigEnv,
    path: PathBuf,
    result: Result<Option<InteractivePolicyConfig>, LaunchError>,
)
    requires
        launch::are_launch_options(options, args, prepared, env),
        runtime::is_interactive_config(
            result,
            options,
            match options.interactive_learned_path {
                Some(_) => Some(path),
                None => None,
            },
        ),
    ensures
        !(result matches Err(error) && error is NoLearnedPolicyPath),
        result matches Ok(config) ==> (config is Some) == options.interactive_enabled,
{
}

/// Only one list has given ports in increasing order, so the order in which
/// ports are given does not matter.
pub proof fn law_increasing_ports_are_determined(a: Seq<u16>, b: Seq<u16>)
    requires
        launch::is_increasing(a),
        launch::is_increasing(b),
        forall|x: u16| #[trigger] a.contains(x) <==> b.contains(x),
    ensures
        a == b,
    decreases a.len(),
{
    if a.len() == 0 {
        if b.len() > 0 {
            assert(b.contains(b[0]));
            assert(a.contains(b[0]));
        }
    } else if b.len() == 0 {
        assert(a.contains(a[0]));
        assert(b.contains(a[0]));
    } else {
        assert(a.contains(a.last()));
        assert(b.contains(b.last()));
        assert(b.contains(a.last()) && a.contains(b.last()));
        assert(a.last() <= b.last() && b.last() <= a.last());
        let shorter_a = a.drop_last();
        let shorter_b = b.drop_last();
        assert forall|x: u16| #[trigger] shorter_a.contains(x) <==> shorter_b.contains(x) by {
            if shorter_a.contains(x) {
                let k = choose|k: int| 0 <= k < shorter_a.len() && shorter_a[k] == x;
                assert(a[k] == x && x < a.last());
                assert(a.contains(x));
                let m = choose|m: int| 0 <= m < b.len() && b[m] == x;
                assert(shorter_b[m] == x);
            }
            if shorter_b.contains(x) {
                let k = choose|k: int| 0 <= k < shorter_b.len() && shorter_b[k] == x;
                assert(b[k] == x && x < b.last());
                assert(b.contains(x));
                assert(a.contains(x));
                let m = choose|m: int| 0 <= m < a.len() && a[m] == x;
                assert(shorter_a[m] == x);
            }
        }
        law_increasing_ports_are_determined(shorter_a, shorter_b);
        assert(a =~= shorter_a.push(a.last()));
        assert(b =~= shorter_b.push(b.last()));
    }
}

/// Merged credentials begin with those of the profile, hold just those of the
/// two lists, and name none of the added ones twice.
pub proof fn law_merging_adds_what_is_new(base: Seq<Seq<char>>, added: Seq<Seq<char>>)
    ensures
        base.is_prefix_of(runtime::merged(base, added)),
        forall|x: Seq<char>| #[trigger]
            runtime::merged(base, added).contains(x) <==> base.contains(x) || added.contains(x),
        forall|i: int, j: int|
            0 <= i < j < runtime::merged(base, added).len() && j >= base.len()
                ==> runtime::merged(base, added)[i] != runtime::merged(base, added)[j],
    decreases added.len(),
{
    if added.len() > 0 {
        let front = added.drop_last();
        law_merging_adds_what_is_new(base, front);
        let before = runtime::merged(base, front);
        let after = runtime::merged(base, added);
        assert forall|x: Seq<char>| #[trigger]
            after.contains(x) <==> base.contains(x) || added.contains(x) by {
            assert(added.contains(x) <==> front.contains(x) || x == added.last()) by {
                assert(added =~= front.push(added.last()));
                if added.contains(x) && x != added.last() {
                    let k = choose|k: int| 0 <= k < added.len() && added[k] == x;
                    assert(front[k] == x);
                }
                if front.contains(x) {
                    let k = choose|k: int| 0 <= k < front.len() && front[k] == x;
                    assert(added[k] == x);
                }
                assert(added[added.len() - 1] == added.last());
            }
            if !before.contains(added.last()) {
                assert(after == before.push(added.last()));
                assert(after[after.len() - 1] == added.last());
                if before.contains(x) {
                    let k = choose|k: int| 0 <= k < before.len() && before[k] == x;
                    assert(after[k] == x);
                }
                if after.contains(x) && x != added.last() {
                    let k = choose|k: int| 0 <= k < after.len() && after[k] == x;
                    assert(before[k] == x);
                }
            }
        }
    }
}

// ---------------------------------------------------------------------------
// What the options hold
// ---------------------------------------------------------------------------

/// Where the network is not opened, the options hold every domain and credential
/// of the profile, then every one of the command line, and no other; opened, none.
/// They are the effective settings of the same arguments and profile.
pub proof fn law_options_hold_both_lists<C>(
    options: ProxyLaunchOptions<C>,
    settings: EffectiveProxySettings,
    args: SandboxArgs,
    prepared: PreparedSandbox<C>,
    env: ConfigEnv,
    item: String,
)
    requires
        launch::are_launch_options(options, args, prepared, env),
        launch::are_effective_settings(settings, args, prepared),
    ensures
        !args.allow_net ==> {
            &&& options.allow_domain@.contains(item) <==> prepared.allow_domain@.contains(item)
                || args.allow_proxy@.contains(item)
            &&& options.allow_domain@ == prepared.allow_domain@ + args.allow_proxy@
            &&& options.credentials@.contains(item) <==> prepared.credentials@.contains(item)
                || args.proxy_credential@.contains(item)
            &&& options.credentials@ == prepared.credentials@ + args.proxy_credential@
        },
        args.allow_net ==> options.allow_domain@.len() == 0 && options.credentials@.len() == 0,
        options.allow_domain@ == settings.allow_domain@,
        options.credentials@ == settings.credentials@,
        options.network_profile == settings.network_profile,
{
    if !args.allow_net {
        lemma_contains_in_either(prepared.allow_domain@, args.allow_proxy@, item);
        lemma_contains_in_either(prepared.credentials@, args.proxy_credential@, item);
    } else {
        assert(options.allow_domain@ =~= settings.allow_domain@);
        assert(options.credentials@ =~= settings.credentials@);
    }
}

proof fn lemma_contains_in_either(a: Seq<String>, b: Seq<String>, item: String)
    ensures
        (a + b).contains(item) <==> a.contains(item) || b.contains(item),
{
    let both = a + b;
    if both.contains(item) {
        let k = choose|k: int| 0 <= k < both.len() && both[k] == item;
        if k < a.len() {
            assert(a[k] == item);
        } else {
            assert(b[k - a.len()] == item);
        }
    }
    if a.contains(item) {
        let k = choose|k: int| 0 <= k < a.len() && a[k] == item;
        assert(both[k] == item);
    }
    if b.contains(item) {
        let k = choose|k: int| 0 <= k < b.len() && b[k] == item;
        assert(both[k + a.len()] == item);
    }
}

/// A network profile and an upstream proxy on the command line replace those of
/// the profile, and the hosts to bypass are then those of the command line;
/// without an upstream proxy there they come behind those of the profile.
pub proof fn law_command_line_replaces_the_profile<C>(
    options: ProxyLaunchOptions<C>,
    args: SandboxArgs,
    prepared: PreparedSandbox<C>,
    env: ConfigEnv,
)
    requires
        launch::are_launch_options(options, args, prepared, env),
        !args.allow_net,
    ensures
        args.network_profile is Some ==> options.network_profile == args.network_profile,
        args.network_profile is None ==> options.network_profile == prepared.network_profile,
        args.external_proxy is Some ==> options.upstream_proxy == args.external_proxy
            && options.upstream_bypass@ == args.external_proxy_bypass@,
        args.external_proxy is None ==> options.upstream_proxy == prepared.upstream_proxy
            && options.upstream_bypass@ == prepared.upstream_bypass@ + args.external_proxy_bypass@,
{
}

/// The ports to bind are those of the profile and of the command line, in
/// increasing order, and the settings without a counterpart are passed on.
pub proof fn law_options_pass_settings_on<C>(
    options: ProxyLaunchOptions<C>,
    args: SandboxArgs,
    prepared: PreparedSandbox<C>,
    env: ConfigEnv,
    port: u16,
    i: int,
    j: int,
)
    requires
        launch::are_launch_options(options, args, prepared, env),
    ensures
        options.allow_bind_ports@.contains(port) <==> prepared.listen_ports@.contains(port)
            || args.allow_bind@.contains(port),
        0 <= i < j < options.allow_bind_ports@.len() ==> options.allow_bind_ports@[i]
            < options.allow_bind_ports@[j],
        options.proxy_port == args.proxy_port,
        options.open_url_origins@ == prepared.open_url_origins@,
        options.open_url_allow_localhost == prepared.open_url_allow_localhost,
        options.allow_launch_services_active == prepared.allow_launch_services_active,
{
}

/// Prompts are enabled by the flag or by a profile that enables them, and only
/// such a profile gives a timeout and a setting for unavailable dialogs.
pub proof fn law_prompts_of_a_launch<C>(
    options: ProxyLaunchOptions<C>,
    args: SandboxArgs,
    prepared: PreparedSandbox<C>,
    env: ConfigEnv,
)
    requires
        launch::are_launch_options(options, args, prepared, env),
    ensures
        options.interactive_enabled <==> args.network_prompt || (prepared.network_prompt is Some
            && prepared.network_prompt->0.enabled),
        options.interactive_learned_path is Some <==> options.interactive_enabled,
        prepared.network_prompt is Some && prepared.network_prompt->0.enabled
            ==> options.interactive_timeout_secs == prepared.network_prompt->0.prompt_timeout_secs
            && options.interactive_on_unavailable == prepared.network_prompt->0.on_unavailable,
        prepared.network_prompt is None || !prepared.network_prompt->0.enabled
            ==> options.interactive_timeout_secs is None && options.interactive_on_unavailable is None,
        prepared.network_prompt is Some && prepared.network_prompt->0.enabled
            && prepared.network_prompt->0.learned_policy_path is Some
            ==> options.interactive_learned_path == Some(
            LearnedPolicyPath::Explicit(prepared.network_prompt->0.learned_policy_path->0),
        ),
{
}

/// A proxy runs where only the proxy may be reached, never where the network is
/// blocked, and else where there are credentials, a network profile, domains, an
/// upstream proxy or prompts. A blocked network that any of these asks against is
/// worth a warning, which a silent launch does not print.
pub proof fn law_when_a_proxy_runs<C>(
    options: ProxyLaunchOptions<C>,
    args: SandboxArgs,
    prepared: PreparedSandbox<C>,
    env: ConfigEnv,
    silent: bool,
)
    requires
        launch::are_launch_options(options, args, prepared, env),
    ensures
        ({
            let asked = options.credentials@.len() > 0 || options.network_profile is Some
                || options.allow_domain@.len() > 0 || options.upstream_proxy is Some
                || options.interactive_enabled;
            let warning = launch::launch_warning(options, prepared.network_mode, silent);
            &&& prepared.network_mode is Blocked ==> !options.active
            &&& prepared.network_mode is ProxyOnly ==> options.active
            &&& prepared.network_mode is AllowAll ==> (options.active <==> asked)
            &&& warning == LaunchWarning::Nothing <==> !(prepared.network_mode is Blocked && asked)
            &&& warning == LaunchWarning::Log <==> prepared.network_mode is Blocked && asked && silent
            &&& warning == LaunchWarning::LogAndPrint <==> prepared.network_mode is Blocked && asked
                && !silent
        }),
{
}

/// Where decisions are stored: at the path that the prompt settings name; else
/// beside the profile file, under its name with `.learned.json` behind it; else
/// in `nono/learned` below the user's configuration, in a file named after the
/// profile or `ad-hoc.json`.
pub proof fn law_places_of_the_learned_file<C>(
    path: LearnedPolicyPath,
    args: SandboxArgs,
    prepared: PreparedSandbox<C>,
    prompt: Option<NetworkPromptConfig>,
    env: ConfigEnv,
)
    requires
        launch::is_learned_path(path, args, prepared, prompt, env),
    ensures
        ({
            let explicit = prompt is Some && prompt->0.learned_policy_path is Some;
            &&& explicit ==> path == LearnedPolicyPath::Explicit(prompt->0.learned_policy_path->0)
            &&& !explicit && prepared.profile_path is Some && prepared.profile_path->0.file_name is Some
                ==> path is BesideProfile && path->BesideProfile_0@
                == prepared.profile_path->0.file_name->0@ + ".learned.json"@
            &&& !explicit && prepared.profile_path is Some && prepared.profile_path->0.file_name is None
                ==> path is ProfileWithSuffix && path->ProfileWithSuffix_0@ == ".learned.json"@
            &&& !explicit && prepared.profile_path is None ==> {
                &&& path is UserConfig
                &&& env.xdg_config_home ==> path->UserConfig_0 == ConfigDir::XdgConfigHome
                &&& !env.xdg_config_home ==> env.home && path->UserConfig_0
                    == ConfigDir::HomeDotConfig
                &&& path->UserConfig_1@.len() == 3
                &&& path->UserConfig_1@[0]@ == "nono"@
                &&& path->UserConfig_1@[1]@ == "learned"@
                &&& args.profile is None ==> path->UserConfig_1@[2]@ == "ad-hoc.json"@
                &&& args.profile is Some && launch::is_portable(args.profile->0@)
                    ==> path->UserConfig_1@[2]@ == launch::sanitized_profile(args.profile->0@)
                    + ".json"@
            }
        }),
        ConfigDir::XdgConfigHome.below().len() == 0,
        ConfigDir::HomeDotConfig.below() == seq![".config"@],
{
    reveal_strlit("ad-hoc");
    reveal_strlit(".json");
    reveal_strlit("ad-hoc.json");
    assert("ad-hoc"@ + ".json"@ =~= "ad-hoc.json"@);
    if path is UserConfig {
        let names = path->UserConfig_1@;
        assert(text::texts(names).len() == names.len());
        if names.len() == 3 {
            assert(text::texts(names)[0] == names[0]@);
            assert(text::texts(names)[1] == names[1]@);
            assert(text::texts(names)[2] == names[2]@);
        }
    }
}

/// There is no place for decisions exactly where neither the prompt settings nor
/// a profile file give one and neither variable names the user's configuration.
pub proof fn law_when_there_is_no_place<C>(
    prepared: PreparedSandbox<C>,
    prompt: Option<NetworkPromptConfig>,
    env: ConfigEnv,
)
    ensures
        launch::lacks_learned_path(prepared, prompt, env) <==> {
            &&& !(prompt is Some && prompt->0.learned_policy_path is Some)
            &&& prepared.profile_path is None
            &&& !env.xdg_config_home
            &&& !env.home
        },
{
}

// ---------------------------------------------------------------------------
// Profile names
// ---------------------------------------------------------------------------

/// Sanitizing keeps ASCII letters and digits, hyphens and underscores, and puts
/// an underscore in the place of every other character.
pub proof fn law_sanitizing_keeps_safe_characters(s: Seq<char>, i: int)
    requires
        0 <= i < s.len(),
    ensures
        launch::sanitized(s).len() == s.len(),
        ('a' <= s[i] && s[i] <= 'z') || ('A' <= s[i] && s[i] <= 'Z') || ('0' <= s[i] && s[i] <= '9')
            || s[i] == '-' || s[i] == '_' ==> launch::sanitized(s)[i] == s[i],
        !(('a' <= s[i] && s[i] <= 'z') || ('A' <= s[i] && s[i] <= 'Z') || ('0' <= s[i] && s[i]
            <= '9') || s[i] == '-' || s[i] == '_') ==> launch::sanitized(s)[i] == '_',
{
}

/// The stem of a name is what stands before its last dot; a name without a dot,
/// or with one only at the beginning, is its own stem.
pub proof fn law_stem_stands_before_the_last_dot(base: Seq<char>, rest: Seq<char>)
    requires
        !rest.contains('.'),
    ensures
        base.len() > 0 ==> launch::stem_of(base.push('.') + rest) == base,
        launch::stem_of(rest) == rest,
        launch::stem_of(seq!['.'] + rest) == seq!['.'] + rest,
{
    let name = base.push('.') + rest;
    let at = base.len() as int;
    if base.len() > 0 {
        assert forall|j: int| at < j < name.len() implies name[j] != '.' by {
            assert(name[j] == rest[j - at - 1]);
            assert(rest.contains(rest[j - at - 1]));
        }
        assert(launch::is_last_dot(name, at));
        let i = choose|i: int| i > 0 && launch::is_last_dot(name, i);
        assert(launch::is_last_dot(name, i));
        assert(i == at);
        assert(name.take(at) =~= base);
    }
    assert forall|i: int| !launch::is_last_dot(rest, i) by {
        if launch::is_last_dot(rest, i) {
            assert(rest.contains(rest[i]));
        }
    }
    let hidden = seq!['.'] + rest;
    assert forall|i: int| i > 0 implies !launch::is_last_dot(hidden, i) by {
        if launch::is_last_dot(hidden, i) {
            assert(hidden[i] == rest[i - 1]);
            assert(rest.contains(rest[i - 1]));
        }
    }
}

proof fn lemma_names_at_a_slash(a: Seq<char>, b: Seq<char>)
    ensures
        launch::path_names(a.push('/') + b) == launch::path_names(a) + launch::path_names(b),
{
    text_laws::law_splitting_at_a_separator(a, b, '/');
    Seq::filter_distributes_over_add(
        text::split_on(a, '/'),
        text::split_on(b, '/'),
        launch::is_path_name(),
    );
}

proof fn lemma_names_without_slash(s: Seq<char>)
    requires
        !s.contains('/'),
    ensures
        launch::path_names(s) == if s.len() > 0 && s != "."@ {
            seq![s]
        } else {
            Seq::<Seq<char>>::empty()
        },
{
    reveal(Seq::filter);
    text_laws::law_unseparated_text_is_one_piece(s, '/');
    let one = seq![s];
    assert(one.drop_last() =~= Seq::<Seq<char>>::empty());
    assert(one.drop_last().filter(launch::is_path_name()) =~= Seq::<Seq<char>>::empty());
    assert(launch::path_names(s) =~= if s.len() > 0 && s != "."@ {
        one
    } else {
        Seq::<Seq<char>>::empty()
    });
}

/// The stem of a path is that of the name behind its last slash; a slash or a dot
/// behind that changes nothing. A path that is empty, or ends in two dots, has
/// none.
pub proof fn law_stem_of_a_path(dir: Seq<char>, name: Seq<char>)
    requires
        !name.contains('/'),
        name.len() > 0,
        name != "."@,
    ensures
        name != ".."@ ==> {
            &&& launch::path_stem(name) == Some(launch::stem_of(name))
            &&& launch::path_stem(dir.push('/') + name) == Some(launch::stem_of(name))
            &&& launch::path_stem((dir.push('/') + name).push('/')) == Some(launch::stem_of(name))
            &&& launch::path_stem((dir.push('/') + name).push('/') + "."@) == Some(
                launch::stem_of(name),
            )
            &&& launch::sanitized_profile(dir.push('/') + name) == launch::sanitized(
                launch::stem_of(name),
            )
            &&& launch::sanitized_profile(name) == launch::sanitized(launch::stem_of(name))
        },
        launch::path_stem(dir.push('/') + ".."@) is None,
        launch::path_stem(Seq::empty()) is None,
        launch::sanitized_profile(dir.push('/') + ".."@) == launch::sanitized(
            dir.push('/') + ".."@,
        ),
{
    reveal_strlit(".");
    reveal_strlit("..");
    let whole = dir.push('/') + name;
    let none = Seq::<char>::empty();
    lemma_names_at_a_slash(dir, name);
    lemma_names_without_slash(name);
    lemma_names_at_a_slash(whole, none);
    lemma_names_without_slash(none);
    assert(whole.push('/') + none =~= whole.push('/'));
    lemma_names_at_a_slash(whole, "."@);
    assert(!"."@.contains('/'));
    lemma_names_without_slash("."@);
    lemma_names_at_a_slash(dir, ".."@);
    assert(!".."@.contains('/'));
    lemma_names_without_slash(".."@);
    assert(".."@.len() == 2 && "."@.len() == 1);
    assert((launch::path_names(dir) + seq![name]).last() == name);
    assert((launch::path_names(dir) + seq![".."@]).last() == ".."@);
    assert(launch::path_names(whole) + Seq::<Seq<char>>::empty() =~= launch::path_names(whole));
}

// ---------------------------------------------------------------------------
// Configuration
// ---------------------------------------------------------------------------

/// Merging adds one credential after the other, each behind what is there unless
/// it is there.
pub proof fn law_merging_goes_in_order(base: Seq<Seq<char>>, added: Seq<Seq<char>>, next: Seq<char>)
    ensures
        runtime::merged(base, Seq::empty()) == base,
        runtime::merged(base, added).contains(next) ==> runtime::merged(base, added.push(next))
            == runtime::merged(base, added),
        !runtime::merged(base, added).contains(next) ==> runtime::merged(base, added.push(next))
            == runtime::merged(base, added).push(next),
{
    assert(added.push(next).drop_last() =~= added);
}

/// A setting for unavailable dialogs allows where it reads `allow` and denies
/// where it reads `deny`, in any case of the letters, or is not given. Anything
/// else is no setting.
pub proof fn law_settings_for_unavailable_dialogs(value: Seq<char>)
    ensures
        runtime::on_unavailable_of(None) == Some(OnUnavailable::Deny),
        runtime::on_unavailable_of(Some(value)) == Some(OnUnavailable::Allow)
            <==> text::ascii_lowercase(value) == "allow"@,
        runtime::on_unavailable_of(Some(value)) == Some(OnUnavailable::Deny)
            <==> text::ascii_lowercase(value) == "deny"@,
{
    reveal_strlit("allow");
    reveal_strlit("deny");
    assert("allow"@.len() == 5 && "deny"@.len() == 4);
}

/// The prompt configuration of a launch holds the path, the setting and the
/// timeout that were given, or 60 seconds. Without prompts there is none; the
/// missing path is reported first, then a setting that is none.
pub proof fn law_prompt_configuration<C>(
    result: Result<Option<InteractivePolicyConfig>, LaunchError>,
    options: ProxyLaunchOptions<C>,
    path: Option<PathBuf>,
)
    requires
        runtime::is_interactive_config(result, options, path),
    ensures
        !options.interactive_enabled ==> result is Ok && result->Ok_0 is None,
        options.interactive_enabled && path is None ==> result is Err
            && result->Err_0 is NoLearnedPolicyPath,
        options.interactive_enabled && path is Some ==> {
            let setting = options.interactive_on_unavailable;
            let lower = text::ascii_lowercase(setting->0@);
            let allow = setting is Some && lower == "allow"@;
            let deny = setting is None || lower == "deny"@;
            &&& !allow && !deny ==> result is Err && result->Err_0 is InvalidOnUnavailable
                && result->Err_0->InvalidOnUnavailable_0@ == lower
            &&& allow || deny ==> {
                &&& result is Ok
                &&& result->Ok_0 is Some
                &&& result->Ok_0->0.learned_policy_path == path->0
                &&& result->Ok_0->0.on_unavailable == if allow {
                    OnUnavailable::Allow
                } else {
                    OnUnavailable::Deny
                }
                &&& options.interactive_timeout_secs is Some
                    ==> result->Ok_0->0.prompt_timeout_secs == options.interactive_timeout_secs->0
                &&& options.interactive_timeout_secs is None
                    ==> result->Ok_0->0.prompt_timeout_secs == 60
            }
        },
{
}

/// A slash at the end of a path, and a dot behind that, change nothing about its
/// stem; a dot alone has none. A profile name with a stem becomes the sanitized
/// stem, and one without is sanitized as a whole.
pub proof fn law_stem_ignores_what_names_nothing(path: Seq<char>)
    ensures
        launch::path_stem(path.push('/')) == launch::path_stem(path),
        launch::path_stem(path.push('/') + "."@) == launch::path_stem(path),
        launch::path_stem("."@) is None,
        launch::path_stem(".."@) is None,
        launch::path_stem(path) is Some ==> launch::sanitized_profile(path) == launch::sanitized(
            launch::path_stem(path)->0,
        ),
        launch::path_stem(path) is None ==> launch::sanitized_profile(path) == launch::sanitized(path),
{
    reveal_strlit(".");
    reveal_strlit("..");
    let none = Seq::<char>::empty();
    let nothing = Seq::<Seq<char>>::empty();
    lemma_names_at_a_slash(path, none);
    lemma_names_without_slash(none);
    assert(path.push('/') + none =~= path.push('/'));
    assert(!"."@.contains('/'));
    assert(!".."@.contains('/'));
    assert(".."@.len() == 2 && "."@.len() == 1);
    lemma_names_at_a_slash(path, "."@);
    lemma_names_without_slash("."@);
    lemma_names_without_slash(".."@);
    assert(launch::path_names(path) + nothing =~= launch::path_names(path));
}

/// A path without backslashes and colons that does not begin with two slashes is
/// portable, and no other is.
pub proof fn law_portable_paths(path: Seq<char>, i: int)
    ensures
        launch::is_portable(path) && 0 <= i < path.len() ==> path[i] != '\\' && path[i] != ':',
        launch::is_portable(path) && path.len() >= 2 && path[0] == '/' ==> path[1] != '/',
        (forall|k: int| 0 <= k < path.len() ==> (#[trigger] path[k]) != '\\' && path[k] != ':') && (
        path.len() < 2 || path[0] != '/' || path[1] != '/') ==> launch::is_portable(path),
{
    if launch::is_portable(path) && 0 <= i < path.len() {
        assert(path.contains(path[i]));
    }
}

} // verus!
