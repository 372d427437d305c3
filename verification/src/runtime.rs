//! The configuration that a launch gives the proxy, and what a started proxy
//! gives the sandbox.

use crate::decision::{InteractivePolicyConfig, OnUnavailable};
use crate::launch::{LaunchError, NetworkMode, ProxyLaunchOptions};
use crate::text;
use std::path::PathBuf;
use vstd::prelude::*;

verus! {

/// A proxy between this one and the network. `A` is how to authenticate to it.
pub struct ExternalProxyConfig<A> {
    pub address: String,
    pub auth: Option<A>,
    pub bypass_hosts: Vec<String>,
}

/// The configuration of the proxy. `N` is what the network policy resolved to:
/// the hosts that are allowed and the routes of the credentials. `A` is how to
/// authenticate to an external proxy.
pub struct ProxyConfig<N, A> {
    pub network: N,
    pub bind_port: u16,
    pub external_proxy: Option<ExternalProxyConfig<A>>,
    pub direct_connect_ports: Vec<u16>,
    pub interactive: Option<InteractivePolicyConfig>,
}

// ---------------------------------------------------------------------------
// Credentials
// ---------------------------------------------------------------------------

/// A list of texts with those of another behind it, as far as they are new.
pub open spec fn merged(base: Seq<Seq<char>>, added: Seq<Seq<char>>) -> Seq<Seq<char>>
    decreases added.len(),
{
    if added.len() == 0 {
        base
    } else {
        let before = merged(base, added.drop_last());
        if before.contains(added.last()) {
            before
        } else {
            before.push(added.last())
        }
    }
}

/// Whether a text is in a list.
fn has_text(list: &Vec<String>, s: &str) -> (r: bool)
    ensures
        r == text::texts(list@).contains(s@),
{
    let mut i: usize = 0;
    while i < list.len()
        invariant
            i <= list@.len(),
            forall|k: int| 0 <= k < i ==> (#[trigger] text::texts(list@)[k]) != s@,
        decreases list@.len() - i,
    {
        if text::same_text(list[i].as_str(), s) {
            assert(text::texts(list@)[i as int] == s@);
            return true;
        }
        i += 1;
    }
    false
}

/// The credentials of the network profile, then those of the launch that are not
/// among them.
#[must_use]
pub fn merge_credentials(profile: &Vec<String>, launch: &Vec<String>) -> (r: Vec<String>)
    ensures
        text::texts(r@) == merged(text::texts(profile@), text::texts(launch@)),
{
    let mut all = text::clone_strings(profile);
    let mut i: usize = 0;
    while i < launch.len()
        invariant
            i <= launch@.len(),
            text::texts(all@) == merged(
                text::texts(profile@),
                text::texts(launch@).take(i as int),
            ),
        decreases launch@.len() - i,
    {
        let ghost before = all@;
        if !has_text(&all, launch[i].as_str()) {
            all.push(launch[i].clone());
            assert(text::texts(all@) =~= text::texts(before).push(launch@[i as int]@));
        }
        proof {
            let next = text::texts(launch@).take(i + 1);
            assert(next.drop_last() =~= text::texts(launch@).take(i as int));
            assert(next.last() == launch@[i as int]@);
        }
        i += 1;
    }
    assert(text::texts(launch@).take(launch@.len() as int) =~= text::texts(launch@));
    all
}

// ---------------------------------------------------------------------------
// Configuration
// ---------------------------------------------------------------------------

/// What a setting for unavailable dialogs means: `allow` and `deny` in any case,
/// and `deny` where there is none. Other values mean nothing.
pub open spec fn on_unavailable_of(value: Option<Seq<char>>) -> Option<OnUnavailable> {
    match value {
        None => Some(OnUnavailable::Deny),
        Some(value) => if text::ascii_lowercase(value) == "allow"@ {
            Some(OnUnavailable::Allow)
        } else if text::ascii_lowercase(value) == "deny"@ {
            Some(OnUnavailable::Deny)
        } else {
            None
        },
    }
}

/// Parses a setting for unavailable dialogs. The error holds the value in lower
/// case.
pub fn parse_on_unavailable(value: Option<&str>) -> (r: Result<OnUnavailable, LaunchError>)
    ensures
        match r {
            Ok(setting) => on_unavailable_of(
                match value {
                    Some(value) => Some(value@),
                    None => None,
                },
            ) == Some(setting),
            Err(error) => match value {
                Some(value) => on_unavailable_of(Some(value@)) is None && (error matches
                    LaunchError::InvalidOnUnavailable(other) && other@ == text::ascii_lowercase(
                    value@,
                )),
                None => false,
            },
        },
{
    match value {
        None => Ok(OnUnavailable::Deny),
        Some(value) => {
            let lower = text::to_ascii_lower(value);
            if text::same_text(lower.as_str(), "allow") {
                Ok(OnUnavailable::Allow)
            } else if text::same_text(lower.as_str(), "deny") {
                Ok(OnUnavailable::Deny)
            } else {
                Err(LaunchError::InvalidOnUnavailable(lower))
            }
        },
    }
}

/// The prompt configuration of a launch: none where prompts are not enabled.
/// Without a timeout the default one holds.
pub fn interactive_config<C>(
    proxy: &ProxyLaunchOptions<C>,
    learned_path: Option<PathBuf>,
) -> (r: Result<Option<InteractivePolicyConfig>, LaunchError>)
    ensures
        is_interactive_config(r, *proxy, learned_path),
{
    if !proxy.interactive_enabled {
        return Ok(None);
    }
    let learned_policy_path = match learned_path {
        Some(path) => path,
        None => {
            return Err(LaunchError::NoLearnedPolicyPath);
        },
    };
    let value = match &proxy.interactive_on_unavailable {
        Some(value) => Some(value.as_str()),
        None => None,
    };
    let on_unavailable = match parse_on_unavailable(value) {
        Ok(setting) => setting,
        Err(error) => {
            return Err(error);
        },
    };
    let prompt_timeout_secs: u64 = match proxy.interactive_timeout_secs {
        Some(secs) => secs,
        None => 60,
    };
    Ok(Some(InteractivePolicyConfig { learned_policy_path, on_unavailable, prompt_timeout_secs }))
}

/// Whether a result is the prompt configuration of a launch. The missing path is
/// reported before a setting that cannot be parsed.
pub open spec fn is_interactive_config<C>(
    result: Result<Option<InteractivePolicyConfig>, LaunchError>,
    proxy: ProxyLaunchOptions<C>,
    learned_path: Option<PathBuf>,
) -> bool {
    if !proxy.interactive_enabled {
        result matches Ok(config) && config is None
    } else if learned_path is None {
        result matches Err(error) && error is NoLearnedPolicyPath
    } else {
        match on_unavailable_of(
            match proxy.interactive_on_unavailable {
                Some(value) => Some(value@),
                None => None,
            },
        ) {
            None => result matches Err(error) && (error matches LaunchError::InvalidOnUnavailable(
                value,
            ) && value@ == text::ascii_lowercase(proxy.interactive_on_unavailable->0@)),
            Some(on_unavailable) => result matches Ok(config) && config == Some(
                InteractivePolicyConfig {
                    learned_policy_path: learned_path->0,
                    on_unavailable,
                    prompt_timeout_secs: match proxy.interactive_timeout_secs {
                        Some(secs) => secs,
                        None => 60,
                    },
                },
            ),
        }
    }
}

/// Lays the settings of a launch over the configuration that comes from the
/// network policy. What the launch does not set stays as it is.
pub fn build_proxy_config_from_flags<C, N, A>(
    proxy: &ProxyLaunchOptions<C>,
    base: ProxyConfig<N, A>,
    learned_path: Option<PathBuf>,
) -> (r: Result<ProxyConfig<N, A>, LaunchError>)
    ensures
        match r {
            Ok(config) => {
                &&& config.network == base.network
                &&& config.direct_connect_ports == base.direct_connect_ports
                &&& match proxy.upstream_proxy {
                    Some(address) => {
                        &&& config.external_proxy matches Some(external)
                        &&& external.address == address
                        &&& external.auth is None
                        &&& external.bypass_hosts@ == proxy.upstream_bypass@
                    },
                    None => config.external_proxy == base.external_proxy,
                }
                &&& config.bind_port == match proxy.proxy_port {
                    Some(port) => port,
                    None => base.bind_port,
                }
                &&& if proxy.interactive_enabled {
                    is_interactive_config(Ok(config.interactive), *proxy, learned_path)
                } else {
                    config.interactive == base.interactive
                }
            },
            Err(error) => proxy.interactive_enabled && is_interactive_config(
                Err(error),
                *proxy,
                learned_path,
            ),
        },
{
    let mut config = base;
    match &proxy.upstream_proxy {
        Some(address) => {
            config.external_proxy = Some(
                ExternalProxyConfig {
                    address: address.clone(),
                    auth: None,
                    bypass_hosts: text::clone_strings(&proxy.upstream_bypass),
                },
            );
        },
        None => {},
    }
    match proxy.proxy_port {
        Some(port) => {
            config.bind_port = port;
        },
        None => {},
    }
    if proxy.interactive_enabled {
        match interactive_config(proxy, learned_path) {
            Ok(interactive) => {
                config.interactive = interactive;
            },
            Err(error) => {
                return Err(error);
            },
        }
    }
    Ok(config)
}

// ---------------------------------------------------------------------------
// Runtime
// ---------------------------------------------------------------------------

/// What a started proxy reports.
pub struct StartedProxy {
    pub port: u16,
    pub env_vars: Vec<(String, String)>,
    pub credential_env_vars: Vec<(String, String)>,
}

/// What the sandbox takes over from a launch.
pub struct RuntimeSettings {
    /// The variables for the process in the sandbox.
    pub env_vars: Vec<(String, String)>,
    /// The restriction of the network; none where it stays as it is.
    pub network_mode: Option<NetworkMode>,
}

/// What the sandbox takes over from a launch: nothing where no proxy runs, else
/// that only its port can be reached, and the variables that it reports, those
/// of the credentials last.
pub fn runtime_settings<C>(
    proxy: &ProxyLaunchOptions<C>,
    started: Option<StartedProxy>,
) -> (r: RuntimeSettings)
    ensures
        match started {
            Some(started) => if proxy.active {
                &&& r.env_vars@ == started.env_vars@ + started.credential_env_vars@
                &&& r.network_mode matches Some(NetworkMode::ProxyOnly { port, bind_ports })
                &&& port == started.port
                &&& bind_ports@ == proxy.allow_bind_ports@
            } else {
                r.env_vars@.len() == 0 && r.network_mode is None
            },
            None => r.env_vars@.len() == 0 && r.network_mode is None,
        },
{
    match started {
        Some(started) => {
            if proxy.active {
                let mut env_vars = started.env_vars;
                let mut credentials = started.credential_env_vars;
                env_vars.append(&mut credentials);
                let bind_ports = proxy.allow_bind_ports.clone();
                assert(bind_ports@ =~= proxy.allow_bind_ports@);
                return RuntimeSettings {
                    env_vars,
                    network_mode: Some(NetworkMode::ProxyOnly { port: started.port, bind_ports }),
                };
            }
        },
        None => {},
    }
    RuntimeSettings { env_vars: Vec::new(), network_mode: None }
}

} // verus!
