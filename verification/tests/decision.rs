//! Decisions and the configuration of prompts.

use nono_proxy::decision::{
    default_prompt_timeout_secs, DecisionScope, InteractivePolicyConfig, OnUnavailable,
    PermanentDecision, PromptDecision,
};
use std::path::PathBuf;
use std::time::Duration;

const ALL: [PromptDecision; 6] = [
    PromptDecision::AllowOnce,
    PromptDecision::AllowPermanentHost,
    PromptDecision::AllowPermanentSuffix,
    PromptDecision::DenyOnce,
    PromptDecision::DenyPermanentHost,
    PromptDecision::DenyPermanentSuffix,
];

#[test]
fn decisions_have_verdict_and_scope() {
    let verdicts: Vec<bool> = ALL.iter().map(|d| d.is_allow()).collect();
    assert_eq!(verdicts, vec![true, true, true, false, false, false]);
    let permanent: Vec<bool> = ALL.iter().map(|d| d.is_permanent()).collect();
    assert_eq!(permanent, vec![false, true, true, false, true, true]);
    let scopes: Vec<Option<DecisionScope>> = ALL.iter().map(|d| d.scope()).collect();
    assert_eq!(
        scopes,
        vec![
            None,
            Some(DecisionScope::Host),
            Some(DecisionScope::Suffix),
            None,
            Some(DecisionScope::Host),
            Some(DecisionScope::Suffix),
        ]
    );
    let stored: Vec<Option<PermanentDecision>> = ALL.iter().map(|d| d.as_permanent()).collect();
    assert_eq!(
        stored,
        vec![
            None,
            Some(PermanentDecision::Allow),
            Some(PermanentDecision::Allow),
            None,
            Some(PermanentDecision::Deny),
            Some(PermanentDecision::Deny),
        ]
    );
}

#[test]
fn stored_decision_keeps_its_verdict() {
    for decision in ALL {
        if let Some(stored) = decision.as_permanent() {
            assert_eq!(PromptDecision::from_stored(stored).is_allow(), decision.is_allow());
            assert!(!PromptDecision::from_stored(stored).is_permanent());
        }
    }
}

#[test]
fn unavailable_dialogs_deny_by_default() {
    assert_eq!(OnUnavailable::default(), OnUnavailable::Deny);
    assert_eq!(OnUnavailable::Deny.fallback(), PromptDecision::DenyOnce);
    assert_eq!(OnUnavailable::Allow.fallback(), PromptDecision::AllowOnce);
}

#[test]
fn prompt_timeout_is_in_seconds() {
    let config = InteractivePolicyConfig {
        learned_policy_path: PathBuf::from("learned.json"),
        on_unavailable: OnUnavailable::Deny,
        prompt_timeout_secs: 17,
    };
    assert_eq!(config.prompt_timeout(), Duration::from_millis(17_000));
    assert_eq!(default_prompt_timeout_secs(), 60);
    let copy = config.clone();
    assert_eq!(copy.learned_policy_path, PathBuf::from("learned.json"));
    assert_eq!(copy.on_unavailable, OnUnavailable::Deny);
    assert_eq!(copy.prompt_timeout_secs, 17);
}
