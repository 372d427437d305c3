//! Launch options, the configuration of the proxy, and the version of a build.

use nono_proxy::decision::OnUnavailable;
use nono_proxy::launch::{
    merge_dedup_ports, prepare_proxy_launch_options, resolve_effective_proxy_settings,
    resolve_learned_policy_path, sanitize_component, sanitize_profile_name, sanitize_stem, user_config_dir,
    ConfigDir, ConfigEnv, LaunchError, LaunchWarning, LearnedPolicyPath, NetworkMode,
    NetworkPromptConfig, PreparedLaunch, PreparedSandbox, ProfilePath, ProxyLaunchOptions,
    SandboxArgs,
};
use nono_proxy::runtime::{
    build_proxy_config_from_flags, interactive_config, merge_credentials, parse_on_unavailable,
    runtime_settings, ExternalProxyConfig, ProxyConfig, StartedProxy,
};
use nono_proxy::version::{build_version, version_of_tag};
use std::path::PathBuf;

const HOME: ConfigEnv = ConfigEnv { xdg_config_home: false, home: true };
const NOWHERE: ConfigEnv = ConfigEnv { xdg_config_home: false, home: false };

fn list(items: &[&str]) -> Vec<String> {
    items.iter().map(|s| s.to_string()).collect()
}

fn args() -> SandboxArgs {
    SandboxArgs {
        allow_net: false,
        external_proxy: None,
        external_proxy_bypass: vec![],
        network_profile: None,
        allow_proxy: vec![],
        proxy_credential: vec![],
        allow_bind: vec![],
        proxy_port: None,
        network_prompt: false,
        profile: None,
    }
}

fn prepared(network_mode: NetworkMode) -> PreparedSandbox<u32> {
    PreparedSandbox {
        network_mode,
        network_profile: None,
        allow_domain: vec![],
        credentials: vec![],
        custom_credentials: 7,
        upstream_proxy: None,
        upstream_bypass: vec![],
        listen_ports: vec![],
        open_url_origins: vec![],
        open_url_allow_localhost: false,
        allow_launch_services_active: false,
        network_prompt: None,
        profile_path: None,
    }
}

fn prompt(enabled: bool) -> NetworkPromptConfig {
    NetworkPromptConfig {
        enabled,
        learned_policy_path: None,
        prompt_timeout_secs: Some(5),
        on_unavailable: Some("ALLOW".to_string()),
    }
}

fn launch(args: &SandboxArgs, prepared: &PreparedSandbox<u32>) -> PreparedLaunch<u32> {
    match prepare_proxy_launch_options(args, prepared, &HOME, false) {
        Ok(launch) => launch,
        Err(_) => panic!("this launch can be prepared"),
    }
}

fn options(args: &SandboxArgs, prepared: &PreparedSandbox<u32>) -> ProxyLaunchOptions<u32> {
    launch(args, prepared).options
}

#[test]
fn ports_are_merged_sorted_and_unique() {
    assert_eq!(
        merge_dedup_ports(&vec![443, 80, 443], &vec![8080, 80, 1]),
        vec![1, 80, 443, 8080]
    );
    assert_eq!(merge_dedup_ports(&vec![], &vec![]), Vec::<u16>::new());
    assert_eq!(
        merge_dedup_ports(&vec![3, 1], &vec![2]),
        merge_dedup_ports(&vec![2], &vec![1, 3])
    );
}

#[test]
fn settings_of_profile_and_arguments_are_joined() {
    let mut a = args();
    let mut p = prepared(NetworkMode::AllowAll);
    p.network_profile = Some("base".to_string());
    p.allow_domain = list(&["a.example"]);
    p.credentials = list(&["one"]);
    a.allow_proxy = list(&["b.example"]);
    a.proxy_credential = list(&["two", "one"]);
    let settings = resolve_effective_proxy_settings(&a, &p);
    assert_eq!(settings.network_profile.as_deref(), Some("base"));
    assert_eq!(settings.allow_domain, list(&["a.example", "b.example"]));
    assert_eq!(settings.credentials, list(&["one", "two", "one"]));
    a.network_profile = Some("mine".to_string());
    let settings = resolve_effective_proxy_settings(&a, &p);
    assert_eq!(settings.network_profile.as_deref(), Some("mine"));
    a.allow_net = true;
    let settings = resolve_effective_proxy_settings(&a, &p);
    assert_eq!(settings.network_profile, None);
    assert!(settings.allow_domain.is_empty());
    assert!(settings.credentials.is_empty());
}

#[test]
fn nothing_asked_for_launches_nothing() {
    let prepared_launch = launch(&args(), &prepared(NetworkMode::AllowAll));
    assert!(!prepared_launch.options.active);
    assert_eq!(prepared_launch.options.custom_credentials, 7);
    assert!(prepared_launch.options.interactive_learned_path.is_none());
    assert_eq!(prepared_launch.warning, LaunchWarning::Nothing);
}

#[test]
fn everything_that_asks_launches_the_proxy() {
    let only = prepared(NetworkMode::ProxyOnly { port: 0, bind_ports: vec![] });
    assert!(options(&args(), &only).active);
    let open = prepared(NetworkMode::AllowAll);
    let mut a = args();
    a.network_profile = Some("base".to_string());
    assert!(options(&a, &open).active);
    let mut a = args();
    a.allow_proxy = list(&["a.example"]);
    assert!(options(&a, &open).active);
    let mut a = args();
    a.proxy_credential = list(&["one"]);
    assert!(options(&a, &open).active);
    let mut a = args();
    a.external_proxy = Some("proxy:3128".to_string());
    assert!(options(&a, &open).active);
    let mut a = args();
    a.network_prompt = true;
    assert!(options(&a, &open).active);
}

#[test]
fn blocked_network_stays_blocked() {
    let mut a = args();
    a.allow_proxy = list(&["a.example"]);
    let blocked = prepared(NetworkMode::Blocked);
    let loud = launch(&a, &blocked);
    assert!(!loud.options.active);
    assert_eq!(loud.warning, LaunchWarning::LogAndPrint);
    match prepare_proxy_launch_options(&a, &blocked, &HOME, true) {
        Ok(silent) => assert_eq!(silent.warning, LaunchWarning::Log),
        Err(_) => panic!("this launch can be prepared"),
    }
    let quiet = launch(&args(), &blocked);
    assert!(!quiet.options.active);
    assert_eq!(quiet.warning, LaunchWarning::Nothing);
}

#[test]
fn upstream_of_the_arguments_replaces_that_of_the_profile() {
    let mut p = prepared(NetworkMode::AllowAll);
    p.upstream_proxy = Some("profile:1".to_string());
    p.upstream_bypass = list(&["x"]);
    let mut a = args();
    a.external_proxy_bypass = list(&["y"]);
    let joined = options(&a, &p);
    assert_eq!(joined.upstream_proxy.as_deref(), Some("profile:1"));
    assert_eq!(joined.upstream_bypass, list(&["x", "y"]));
    a.external_proxy = Some("args:2".to_string());
    let replaced = options(&a, &p);
    assert_eq!(replaced.upstream_proxy.as_deref(), Some("args:2"));
    assert_eq!(replaced.upstream_bypass, list(&["y"]));
    a.allow_net = true;
    let dropped = options(&a, &p);
    assert_eq!(dropped.upstream_proxy, None);
    assert!(dropped.upstream_bypass.is_empty());
    assert!(!dropped.active);
}

#[test]
fn plain_settings_are_passed_on() {
    let mut p = prepared(NetworkMode::AllowAll);
    p.listen_ports = vec![9, 5];
    p.open_url_origins = list(&["https://a.example"]);
    p.open_url_allow_localhost = true;
    p.allow_launch_services_active = true;
    let mut a = args();
    a.allow_bind = vec![5, 7];
    a.proxy_port = Some(3128);
    let o = options(&a, &p);
    assert_eq!(o.allow_bind_ports, vec![5, 7, 9]);
    assert_eq!(o.proxy_port, Some(3128));
    assert_eq!(o.open_url_origins, list(&["https://a.example"]));
    assert!(o.open_url_allow_localhost);
    assert!(o.allow_launch_services_active);
}

#[test]
fn enabled_prompt_of_the_profile_counts() {
    let mut p = prepared(NetworkMode::AllowAll);
    p.network_prompt = Some(prompt(true));
    let o = options(&args(), &p);
    assert!(o.interactive_enabled);
    assert_eq!(o.interactive_timeout_secs, Some(5));
    assert_eq!(o.interactive_on_unavailable.as_deref(), Some("ALLOW"));
    assert!(matches!(
        o.interactive_learned_path,
        Some(LearnedPolicyPath::UserConfig(ConfigDir::HomeDotConfig, _))
    ));
}

#[test]
fn disabled_prompt_of_the_profile_does_not_count() {
    let mut p = prepared(NetworkMode::AllowAll);
    p.network_prompt = Some(prompt(false));
    let o = options(&args(), &p);
    assert!(!o.interactive_enabled);
    assert!(o.interactive_learned_path.is_none());
    // The flag enables prompts, with none of the disabled settings.
    let mut a = args();
    a.network_prompt = true;
    let o = options(&a, &p);
    assert!(o.interactive_enabled);
    assert_eq!(o.interactive_timeout_secs, None);
    assert_eq!(o.interactive_on_unavailable, None);
}

#[test]
fn prompts_need_a_place_for_decisions() {
    let mut a = args();
    let p = prepared(NetworkMode::AllowAll);
    assert!(prepare_proxy_launch_options(&a, &p, &NOWHERE, false).is_ok());
    a.network_prompt = true;
    assert!(matches!(
        prepare_proxy_launch_options(&a, &p, &NOWHERE, false),
        Err(LaunchError::NoConfigDir)
    ));
}

#[test]
fn learned_path_precedence() {
    let mut a = args();
    a.profile = Some("dev/my profile.json".to_string());
    let mut p = prepared(NetworkMode::AllowAll);
    let mut explicit = prompt(true);
    explicit.learned_policy_path = Some(PathBuf::from("/tmp/here.json"));
    p.profile_path = Some(ProfilePath { file_name: Some("dev.json".to_string()) });
    match resolve_learned_policy_path(&a, &p, &Some(explicit), &NOWHERE) {
        Ok(LearnedPolicyPath::Explicit(path)) => assert_eq!(path, PathBuf::from("/tmp/here.json")),
        _ => panic!("the profile names the path"),
    }
    match resolve_learned_policy_path(&a, &p, &Some(prompt(true)), &NOWHERE) {
        Ok(LearnedPolicyPath::BesideProfile(name)) => assert_eq!(name, "dev.json.learned.json"),
        _ => panic!("the path is beside the profile"),
    }
    p.profile_path = Some(ProfilePath { file_name: None });
    match resolve_learned_policy_path(&a, &p, &None, &NOWHERE) {
        Ok(LearnedPolicyPath::ProfileWithSuffix(s)) => assert_eq!(s, ".learned.json"),
        _ => panic!("the path is beside the profile"),
    }
    p.profile_path = None;
    match resolve_learned_policy_path(&a, &p, &None, &HOME) {
        Ok(LearnedPolicyPath::UserConfig(dir, names)) => {
            assert_eq!(dir, ConfigDir::HomeDotConfig);
            assert_eq!(names, list(&["nono", "learned", "my_profile.json"]));
            assert_eq!(dir.below_variable(), list(&[".config"]));
        }
        _ => panic!("the path is under the configuration"),
    }
    a.profile = None;
    let xdg = ConfigEnv { xdg_config_home: true, home: true };
    match resolve_learned_policy_path(&a, &p, &None, &xdg) {
        Ok(LearnedPolicyPath::UserConfig(dir, names)) => {
            assert_eq!(dir, ConfigDir::XdgConfigHome);
            assert_eq!(names, list(&["nono", "learned", "ad-hoc.json"]));
            assert!(dir.below_variable().is_empty());
        }
        _ => panic!("the path is under the configuration"),
    }
    assert!(matches!(
        resolve_learned_policy_path(&a, &p, &None, &NOWHERE),
        Err(LaunchError::NoConfigDir)
    ));
}

#[test]
fn config_dir_prefers_xdg() {
    let both = ConfigEnv { xdg_config_home: true, home: true };
    assert!(matches!(user_config_dir(&both), Ok(ConfigDir::XdgConfigHome)));
    assert!(matches!(user_config_dir(&HOME), Ok(ConfigDir::HomeDotConfig)));
    assert!(matches!(user_config_dir(&NOWHERE), Err(LaunchError::NoConfigDir)));
}

#[test]
fn profile_names_become_file_names() {
    assert_eq!(sanitize_profile_name("web-dev"), "web-dev");
    assert_eq!(sanitize_profile_name("a.b.json"), "a_b");
    assert_eq!(sanitize_profile_name(".hidden"), "_hidden");
    assert_eq!(sanitize_profile_name("dir/name.json"), "name");
    assert_eq!(sanitize_profile_name("../../etc/passwd"), "passwd");
    assert_eq!(sanitize_profile_name(".."), "__");
    assert_eq!(sanitize_profile_name(""), "");
    assert_eq!(sanitize_profile_name("."), "_");
    assert_eq!(sanitize_profile_name("/"), "_");
    assert_eq!(sanitize_profile_name("a/b.c/"), "b");
    assert_eq!(sanitize_profile_name("a/b.c/."), "b");
    assert_eq!(sanitize_profile_name("a/.."), "a___");
    assert_eq!(sanitize_profile_name("./x"), "x");
    assert_eq!(sanitize_profile_name("a//b"), "b");
    assert_eq!(sanitize_profile_name("sp ace\u{e9}"), "sp_ace_");
    assert_eq!(sanitize_component("aZ09-_./"), "aZ09-___");
}

#[test]
fn stem_that_the_platform_reads_is_sanitized() {
    assert_eq!(sanitize_stem(Some("a:b".to_string()), "c:\\x\\a:b.json"), "a_b");
    assert_eq!(sanitize_stem(None, "c:\\.."), "c____");
    // Whatever separates the path, what is left is safe.
    let left = sanitize_profile_name("c:\\x\\y.json");
    assert!(left.chars().all(|c| c.is_ascii_alphanumeric() || c == '-' || c == '_'));
    assert!(left.ends_with('y'));
}

#[test]
fn credentials_are_merged_once() {
    assert_eq!(
        merge_credentials(&list(&["a", "b", "a"]), &list(&["b", "c", "c", "d"])),
        list(&["a", "b", "a", "c", "d"])
    );
    assert_eq!(merge_credentials(&vec![], &list(&["x", "x"])), list(&["x"]));
}

#[test]
fn unavailable_setting_is_parsed() {
    assert!(matches!(parse_on_unavailable(None), Ok(OnUnavailable::Deny)));
    assert!(matches!(parse_on_unavailable(Some("Deny")), Ok(OnUnavailable::Deny)));
    assert!(matches!(parse_on_unavailable(Some("aLLoW")), Ok(OnUnavailable::Allow)));
    match parse_on_unavailable(Some("Maybe")) {
        Err(LaunchError::InvalidOnUnavailable(value)) => assert_eq!(value, "maybe"),
        _ => panic!("this is no setting"),
    }
    assert!(parse_on_unavailable(Some("")).is_err());
}

fn base() -> ProxyConfig<&'static str, u8> {
    ProxyConfig {
        network: "policy",
        bind_port: 1,
        external_proxy: None,
        direct_connect_ports: vec![22],
        interactive: None,
    }
}

#[test]
fn launch_settings_lie_over_the_policy() {
    let mut a = args();
    a.external_proxy = Some("proxy:3128".to_string());
    a.external_proxy_bypass = list(&["x"]);
    a.proxy_port = Some(8080);
    a.network_prompt = true;
    let o = options(&a, &prepared(NetworkMode::AllowAll));
    let path = PathBuf::from("learned.json");
    match build_proxy_config_from_flags(&o, base(), Some(path.clone())) {
        Ok(config) => {
            assert_eq!(config.network, "policy");
            assert_eq!(config.bind_port, 8080);
            assert_eq!(config.direct_connect_ports, vec![22]);
            let external = config.external_proxy.unwrap();
            assert_eq!(external.address, "proxy:3128");
            assert_eq!(external.auth, None);
            assert_eq!(external.bypass_hosts, list(&["x"]));
            let interactive = config.interactive.unwrap();
            assert_eq!(interactive.learned_policy_path, path);
            assert_eq!(interactive.on_unavailable, OnUnavailable::Deny);
            assert_eq!(interactive.prompt_timeout_secs, 60);
        }
        Err(_) => panic!("the settings are valid"),
    }
}

#[test]
fn unset_launch_settings_leave_the_policy() {
    let o = options(&args(), &prepared(NetworkMode::AllowAll));
    let mut config = base();
    config.external_proxy = Some(ExternalProxyConfig {
        address: "kept:1".to_string(),
        auth: Some(9),
        bypass_hosts: vec![],
    });
    match build_proxy_config_from_flags(&o, config, None) {
        Ok(config) => {
            assert_eq!(config.bind_port, 1);
            let external = config.external_proxy.unwrap();
            assert_eq!(external.address, "kept:1");
            assert_eq!(external.auth, Some(9));
            assert!(config.interactive.is_none());
        }
        Err(_) => panic!("there is nothing to refuse"),
    }
}

#[test]
fn prompt_configuration_is_checked() {
    let mut p = prepared(NetworkMode::AllowAll);
    p.network_prompt = Some(prompt(true));
    let mut o = options(&args(), &p);
    let path = || Some(PathBuf::from("learned.json"));
    match interactive_config(&o, path()) {
        Ok(Some(config)) => {
            assert_eq!(config.on_unavailable, OnUnavailable::Allow);
            assert_eq!(config.prompt_timeout_secs, 5);
        }
        _ => panic!("the settings are valid"),
    }
    assert!(matches!(
        interactive_config(&o, None),
        Err(LaunchError::NoLearnedPolicyPath)
    ));
    o.interactive_on_unavailable = Some("Ask".to_string());
    match interactive_config(&o, path()) {
        Err(LaunchError::InvalidOnUnavailable(value)) => assert_eq!(value, "ask"),
        _ => panic!("this is no setting"),
    }
    assert!(build_proxy_config_from_flags(&o, base(), path()).is_err());
    o.interactive_enabled = false;
    assert!(matches!(interactive_config(&o, path()), Ok(None)));
}

fn started() -> StartedProxy {
    let pair = |k: &str, v: &str| (k.to_string(), v.to_string());
    StartedProxy {
        port: 4000,
        env_vars: vec![pair("HTTP_PROXY", "p")],
        credential_env_vars: vec![pair("TOKEN_URL", "t")],
    }
}

#[test]
fn started_proxy_restricts_the_network() {
    let mut a = args();
    a.network_prompt = true;
    a.allow_bind = vec![9, 8];
    let o = options(&a, &prepared(NetworkMode::AllowAll));
    let settings = runtime_settings(&o, Some(started()));
    let keys: Vec<&str> = settings.env_vars.iter().map(|(k, _)| k.as_str()).collect();
    assert_eq!(keys, vec!["HTTP_PROXY", "TOKEN_URL"]);
    match settings.network_mode {
        Some(NetworkMode::ProxyOnly { port, bind_ports }) => {
            assert_eq!(port, 4000);
            assert_eq!(bind_ports, vec![8, 9]);
        }
        _ => panic!("only the proxy can be reached"),
    }
}

#[test]
fn inactive_launch_changes_nothing() {
    let o = options(&args(), &prepared(NetworkMode::AllowAll));
    for reply in [None, Some(started())] {
        let settings = runtime_settings(&o, reply);
        assert!(settings.env_vars.is_empty());
        assert!(settings.network_mode.is_none());
    }
}

#[test]
fn build_versions() {
    assert_eq!(build_version(Some(" v1.2.3\n"), Some("v9")), "1.2.3");
    assert_eq!(build_version(Some(" "), Some("vv0.1-4-gabc\n")), "0.1-4-gabc");
    assert_eq!(build_version(None, Some("\n")), "dev");
    assert_eq!(build_version(None, None), "dev");
    assert_eq!(build_version(Some("v"), None), "");
    assert_eq!(version_of_tag(Some("v2 ")).as_deref(), Some("2"));
    assert_eq!(version_of_tag(Some(" ")), None);
    assert_eq!(version_of_tag(None), None);
}
