//! Decisions about hosts and the configuration of the interactive policy.

use std::path::PathBuf;
use std::time::Duration;
use vstd::prelude::*;

verus! {

// ---------------------------------------------------------------------------
// Trusted items: standard library types and functions
// ---------------------------------------------------------------------------

/// `std::path::PathBuf`, carried through without a look inside.
#[verifier::external_type_specification]
#[verifier::external_body]
pub struct ExPathBuf(PathBuf);

/// `PathBuf::clone`: a duplicate of the path.
pub assume_specification[ <PathBuf as Clone>::clone ](path: &PathBuf) -> (r: PathBuf)
    ensures
        r == *path,
;

/// The span of time of a whole number of seconds.
pub uninterp spec fn duration_of_secs(secs: u64) -> Duration;

/// `Duration::from_secs`: the span of the given number of whole seconds.
pub assume_specification[ Duration::from_secs ](secs: u64) -> (r: Duration)
    ensures
        r == duration_of_secs(secs),
;

// ---------------------------------------------------------------------------
// Decisions
// ---------------------------------------------------------------------------

/// A persistent decision about a host.
#[derive(Debug, Clone, Copy, PartialEq, Eq, Structural)]
pub enum PermanentDecision {
    Allow,
    Deny,
}

/// Scope of a learned decision.
#[derive(Debug, Clone, Copy, PartialEq, Eq, Structural)]
pub enum DecisionScope {
    /// Exact hostname match (case-insensitive).
    Host,
    /// Wildcard suffix match (e.g., `example.com` matches `api.example.com`).
    Suffix,
}

/// The decision a user can make at a prompt.
#[derive(Debug, Clone, Copy, PartialEq, Eq, Structural)]
pub enum PromptDecision {
    AllowOnce,
    AllowPermanentHost,
    AllowPermanentSuffix,
    DenyOnce,
    DenyPermanentHost,
    DenyPermanentSuffix,
}

impl PromptDecision {
    /// Whether the decision lets the request through.
    pub open spec fn allows(self) -> bool {
        self is AllowOnce || self is AllowPermanentHost || self is AllowPermanentSuffix
    }

    /// What the decision stores, and for which hosts. A decision for one
    /// request stores nothing.
    pub open spec fn stores(self) -> Option<(DecisionScope, PermanentDecision)> {
        match self {
            PromptDecision::AllowOnce => None,
            PromptDecision::AllowPermanentHost => Some(
                (DecisionScope::Host, PermanentDecision::Allow),
            ),
            PromptDecision::AllowPermanentSuffix => Some(
                (DecisionScope::Suffix, PermanentDecision::Allow),
            ),
            PromptDecision::DenyOnce => None,
            PromptDecision::DenyPermanentHost => Some(
                (DecisionScope::Host, PermanentDecision::Deny),
            ),
            PromptDecision::DenyPermanentSuffix => Some(
                (DecisionScope::Suffix, PermanentDecision::Deny),
            ),
        }
    }

    /// The decision for one request that a stored decision amounts to.
    pub open spec fn once(stored: PermanentDecision) -> PromptDecision {
        match stored {
            PermanentDecision::Allow => PromptDecision::AllowOnce,
            PermanentDecision::Deny => PromptDecision::DenyOnce,
        }
    }

    #[must_use]
    pub fn is_allow(&self) -> (r: bool)
        ensures
            r == self.allows(),
    {
        matches!(
            self,
            PromptDecision::AllowOnce
            | PromptDecision::AllowPermanentHost
            | PromptDecision::AllowPermanentSuffix
        )
    }

    #[must_use]
    pub fn is_permanent(&self) -> (r: bool)
        ensures
            r == (self.stores() is Some),
    {
        !matches!(self, PromptDecision::AllowOnce | PromptDecision::DenyOnce)
    }

    #[must_use]
    pub fn scope(&self) -> (r: Option<DecisionScope>)
        ensures
            r == (match self.stores() {
                Some((scope, _)) => Some(scope),
                None => None,
            }),
    {
        match self {
            PromptDecision::AllowPermanentHost | PromptDecision::DenyPermanentHost => Some(
                DecisionScope::Host,
            ),
            PromptDecision::AllowPermanentSuffix | PromptDecision::DenyPermanentSuffix => Some(
                DecisionScope::Suffix,
            ),
            _ => None,
        }
    }

    #[must_use]
    pub fn as_permanent(&self) -> (r: Option<PermanentDecision>)
        ensures
            r == (match self.stores() {
                Some((_, decision)) => Some(decision),
                None => None,
            }),
    {
        if self.is_permanent() {
            if self.is_allow() {
                Some(PermanentDecision::Allow)
            } else {
                Some(PermanentDecision::Deny)
            }
        } else {
            None
        }
    }

    /// Turns a stored decision into one for the request at hand.
    #[must_use]
    pub fn from_stored(stored: PermanentDecision) -> (r: PromptDecision)
        ensures
            r == PromptDecision::once(stored),
    {
        match stored {
            PermanentDecision::Allow => PromptDecision::AllowOnce,
            PermanentDecision::Deny => PromptDecision::DenyOnce,
        }
    }
}

/// A permanent decision and the decision for one request that it amounts to
/// agree on whether the request goes through.
pub proof fn law_stored_decision_keeps_verdict(decision: PromptDecision)
    ensures
        decision.stores() matches Some((_, stored)) ==> PromptDecision::once(stored).allows()
            == decision.allows() && PromptDecision::once(stored).stores() is None,
{
}

// ---------------------------------------------------------------------------
// Configuration
// ---------------------------------------------------------------------------

/// Behavior when no native dialog backend is available.
#[derive(Debug, Clone, Copy, PartialEq, Eq, Structural)]
pub enum OnUnavailable {
    /// Deny the request (safe default).
    Deny,
    /// Allow the request (useful for tests / CI).
    Allow,
}

impl Default for OnUnavailable {
    fn default() -> (r: OnUnavailable)
        ensures
            r == OnUnavailable::Deny,
    {
        OnUnavailable::Deny
    }
}

impl OnUnavailable {
    /// The decision that stands in for an answer nobody could be asked for.
    pub open spec fn decision(self) -> PromptDecision {
        match self {
            OnUnavailable::Allow => PromptDecision::AllowOnce,
            OnUnavailable::Deny => PromptDecision::DenyOnce,
        }
    }

    /// The decision that stands in for an answer nobody could be asked for.
    #[must_use]
    pub fn fallback(&self) -> (r: PromptDecision)
        ensures
            r == self.decision(),
    {
        match self {
            OnUnavailable::Allow => PromptDecision::AllowOnce,
            OnUnavailable::Deny => PromptDecision::DenyOnce,
        }
    }
}

/// Default number of seconds to wait for a user dialog response.
pub const DEFAULT_PROMPT_TIMEOUT_SECS: u64 = 60;

/// Configuration for the interactive policy subsystem.
#[derive(Debug)]
pub struct InteractivePolicyConfig {
    /// Path where permanent decisions are persisted. If the parent directory
    /// does not exist, it is created at startup.
    pub learned_policy_path: PathBuf,
    /// Fallback policy when no dialog backend is available (headless Linux
    /// without zenity/kdialog, WSL without powershell.exe, etc.).
    pub on_unavailable: OnUnavailable,
    /// Timeout for a single prompt before the default-deny fallback kicks in.
    pub prompt_timeout_secs: u64,
}

impl Clone for InteractivePolicyConfig {
    fn clone(&self) -> (r: InteractivePolicyConfig)
        ensures
            r == *self,
    {
        InteractivePolicyConfig {
            learned_policy_path: self.learned_policy_path.clone(),
            on_unavailable: self.on_unavailable,
            prompt_timeout_secs: self.prompt_timeout_secs,
        }
    }
}

/// The timeout of a configuration that names none.
pub fn default_prompt_timeout_secs() -> (r: u64)
    ensures
        r == 60,
{
    DEFAULT_PROMPT_TIMEOUT_SECS
}

impl InteractivePolicyConfig {
    #[must_use]
    pub fn prompt_timeout(&self) -> (r: Duration)
        ensures
            r == duration_of_secs(self.prompt_timeout_secs),
    {
        Duration::from_secs(self.prompt_timeout_secs)
    }
}

/// Exactly the three allowing decisions allow; the others deny. Of each verdict
/// one stores nothing, one the host and one the suffix, and what it stores is
/// its verdict. Where nobody could be asked, the setting gives the verdict.
pub proof fn law_decisions_mean_what_they_say(
    decision: PromptDecision,
    stored: PermanentDecision,
    on_unavailable: OnUnavailable,
)
    ensures
        decision.allows() <==> decision == PromptDecision::AllowOnce || decision
            == PromptDecision::AllowPermanentHost || decision == PromptDecision::AllowPermanentSuffix,
        decision.stores() is None <==> decision == PromptDecision::AllowOnce || decision
            == PromptDecision::DenyOnce,
        decision.stores() matches Some((scope, verdict)) ==> {
            &&& verdict == PermanentDecision::Allow <==> decision.allows()
            &&& scope == DecisionScope::Host <==> decision == PromptDecision::AllowPermanentHost
                || decision == PromptDecision::DenyPermanentHost
        },
        PromptDecision::once(stored).allows() <==> stored == PermanentDecision::Allow,
        PromptDecision::once(stored).stores() is None,
        on_unavailable.decision().allows() <==> on_unavailable == OnUnavailable::Allow,
        on_unavailable.decision().stores() is None,
{
}

} // verus!
