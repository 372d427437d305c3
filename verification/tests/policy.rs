//! The interactive policy, driven by a caller that shows prompts and saves what
//! it is told to.

use nono_proxy::decision::{
    DecisionScope, InteractivePolicyConfig, OnUnavailable, PermanentDecision, PromptDecision,
};
use nono_proxy::learned::{LearnedEntry, LearnedPolicyFile};
use nono_proxy::policy::{DecideStep, InteractivePolicy, PromptOutcome};
use serde_json::Value;
use std::path::PathBuf;

fn cfg(on_unavailable: OnUnavailable) -> InteractivePolicyConfig {
    InteractivePolicyConfig {
        learned_policy_path: PathBuf::from("learned.json"),
        on_unavailable,
        prompt_timeout_secs: 1,
    }
}

fn name_of(decision: PermanentDecision) -> &'static str {
    match decision {
        PermanentDecision::Allow => "allow",
        PermanentDecision::Deny => "deny",
    }
}

fn scope_name(scope: DecisionScope) -> &'static str {
    match scope {
        DecisionScope::Host => "host",
        DecisionScope::Suffix => "suffix",
    }
}

/// The file as it is written to disk.
fn write_json(file: &LearnedPolicyFile) -> String {
    let mut entries = Vec::new();
    for entry in &file.entries {
        let mut object = serde_json::Map::new();
        object.insert("host".to_string(), Value::from(entry.host.clone()));
        object.insert("scope".to_string(), Value::from(scope_name(entry.scope)));
        object.insert("decision".to_string(), Value::from(name_of(entry.decision)));
        entries.push(Value::Object(object));
    }
    let mut root = serde_json::Map::new();
    root.insert("schema".to_string(), Value::from(file.schema));
    root.insert("entries".to_string(), Value::Array(entries));
    serde_json::to_string_pretty(&Value::Object(root)).unwrap()
}

/// The file as it is read from disk.
fn read_json(raw: &str) -> LearnedPolicyFile {
    let root: Value = serde_json::from_str(raw).unwrap();
    let mut file = LearnedPolicyFile::default();
    file.schema = root["schema"].as_u64().unwrap() as u32;
    for entry in root["entries"].as_array().unwrap() {
        file.entries.push(LearnedEntry {
            host: entry["host"].as_str().unwrap().to_string(),
            scope: match entry["scope"].as_str().unwrap() {
                "host" => DecisionScope::Host,
                _ => DecisionScope::Suffix,
            },
            decision: match entry["decision"].as_str().unwrap() {
                "allow" => PermanentDecision::Allow,
                _ => PermanentDecision::Deny,
            },
        });
    }
    file
}

/// A caller of the policy whose prompts all end the same way.
struct Caller {
    policy: InteractivePolicy,
    outcome: PromptOutcome,
    prompts: usize,
    notifications: usize,
    disk: Option<String>,
    next_ticket: u64,
}

impl Caller {
    fn over(policy: InteractivePolicy, outcome: PromptOutcome) -> Self {
        Caller {
            policy,
            outcome,
            prompts: 0,
            notifications: 0,
            disk: None,
            next_ticket: 0,
        }
    }

    fn new(decision: PromptDecision) -> Self {
        let policy =
            InteractivePolicy::load(cfg(OnUnavailable::Deny), &LearnedPolicyFile::default());
        Caller::over(policy, PromptOutcome::Answered(decision))
    }

    fn ticket(&mut self) -> u64 {
        self.next_ticket += 1;
        self.next_ticket
    }

    /// Runs one request to its end.
    fn decide(&mut self, host: &str, port: u16) -> PromptDecision {
        let ticket = self.ticket();
        match self.policy.decide(host, port, ticket) {
            DecideStep::Stored(decision) => decision,
            DecideStep::Lead(request) => {
                assert_eq!(request.host, host);
                assert_eq!(request.port, port);
                self.notifications += 1;
                self.prompts += 1;
                let settled = self.policy.settle(host, self.outcome);
                if let Some(file) = &settled.save {
                    self.disk = Some(write_json(file));
                }
                let released = self.policy.release(host, true).unwrap();
                assert_eq!(released, vec![ticket]);
                settled.decision
            }
            DecideStep::Wait => panic!("nobody else asks"),
        }
    }
}

#[test]
fn allow_once_does_not_persist() {
    let mut caller = Caller::new(PromptDecision::AllowOnce);

    let d1 = caller.decide("example.com", 443);
    assert_eq!(d1, PromptDecision::AllowOnce);
    assert_eq!(caller.prompts, 1);

    // Second call should prompt again (nothing stored).
    let d2 = caller.decide("example.com", 443);
    assert_eq!(d2, PromptDecision::AllowOnce);
    assert_eq!(caller.prompts, 2);

    assert!(caller.disk.is_none() || caller.disk.as_ref().unwrap().contains("\"entries\": []"));
}

#[test]
fn allow_permanent_host_persists_and_is_reused() {
    let mut caller = Caller::new(PromptDecision::AllowPermanentHost);

    let d1 = caller.decide("api.example.com", 443);
    assert_eq!(d1, PromptDecision::AllowPermanentHost);
    assert_eq!(caller.prompts, 1);

    // Second call should hit the cached decision, no prompt.
    let d2 = caller.decide("api.example.com", 443);
    assert!(d2.is_allow());
    assert_eq!(caller.prompts, 1);

    // File must contain the entry.
    let raw = caller.disk.unwrap();
    assert!(raw.contains("api.example.com"));
    assert!(raw.contains("\"allow\""));
}

#[test]
fn allow_permanent_suffix_matches_subdomains() {
    let mut caller = Caller::new(PromptDecision::AllowPermanentSuffix);

    let _ = caller.decide("api.example.com", 443);
    assert_eq!(caller.prompts, 1);

    // suffix is derived from "api.example.com" -> "example.com".
    // A request for "static.example.com" must be covered without re-prompting.
    let d = caller.decide("static.example.com", 443);
    assert!(d.is_allow());
    assert_eq!(caller.prompts, 1);
}

#[test]
fn deny_permanent_is_enforced() {
    let mut caller = Caller::new(PromptDecision::DenyPermanentHost);

    let d1 = caller.decide("evil.example.com", 443);
    assert!(!d1.is_allow());
    let d2 = caller.decide("evil.example.com", 443);
    assert!(!d2.is_allow());
    assert_eq!(caller.prompts, 1);
}

#[test]
fn decisions_survive_reload() {
    let mut caller = Caller::new(PromptDecision::AllowPermanentHost);
    let _ = caller.decide("cache.example.com", 443);

    // Reload from disk with prompts that would deny if shown.
    let file = read_json(&caller.disk.unwrap());
    let policy2 = InteractivePolicy::load(cfg(OnUnavailable::Deny), &file);
    let mut caller2 = Caller::over(
        policy2,
        PromptOutcome::Answered(PromptDecision::DenyPermanentHost),
    );
    let stored = caller2.policy.stored_decision("cache.example.com");
    assert_eq!(stored, Some(PermanentDecision::Allow));
    let d = caller2.decide("cache.example.com", 443);
    assert!(d.is_allow());
    assert_eq!(caller2.prompts, 0);
}

#[test]
fn notifier_fires_once_per_prompt_and_not_for_stored_decision() {
    let mut caller = Caller::new(PromptDecision::AllowPermanentHost);

    // First call: no stored decision, so a prompt and one notification.
    let _ = caller.decide("banner.example.com", 443);
    assert_eq!(caller.notifications, 1);

    // Second call: permanent allow cached, so no prompt and no notification.
    let _ = caller.decide("banner.example.com", 443);
    assert_eq!(caller.notifications, 1);
}

#[test]
fn notifier_coalesced_waiters_do_not_double_notify() {
    let mut caller = Caller::new(PromptDecision::AllowOnce);
    let mut notify_calls = 0;

    // Two requests arrive before the prompt ends.
    for ticket in [1u64, 2] {
        match caller.policy.decide("coalesce.example.com", 443, ticket) {
            DecideStep::Lead(_) => notify_calls += 1,
            DecideStep::Wait => {}
            DecideStep::Stored(_) => panic!("nothing is stored"),
        }
    }
    let settled = caller.policy.settle(
        "coalesce.example.com",
        PromptOutcome::Answered(PromptDecision::AllowOnce),
    );
    assert_eq!(settled.decision, PromptDecision::AllowOnce);
    assert_eq!(
        caller.policy.release("coalesce.example.com", true),
        Some(vec![1, 2])
    );

    // Only the leader should have notified.
    assert_eq!(notify_calls, 1);
}

#[test]
fn requests_for_one_host_in_any_case_coalesce() {
    let mut caller = Caller::new(PromptDecision::AllowOnce);
    assert!(matches!(
        caller.policy.decide("Host.Example", 443, 7),
        DecideStep::Lead(_)
    ));
    assert!(matches!(
        caller.policy.decide("host.EXAMPLE", 80, 8),
        DecideStep::Wait
    ));
    // Another host has a prompt of its own.
    assert!(matches!(
        caller.policy.decide("other.example", 80, 9),
        DecideStep::Lead(_)
    ));
    assert_eq!(caller.policy.release("HOST.example", true), Some(vec![7, 8]));
    assert_eq!(caller.policy.release("host.example", true), Some(vec![]));
    assert_eq!(caller.policy.release("other.example", true), Some(vec![9]));
    // Once released, the next request leads again.
    assert!(matches!(
        caller.policy.decide("host.example", 443, 10),
        DecideStep::Lead(_)
    ));
}

#[test]
fn lead_carries_timeout_and_fallback() {
    let mut config = cfg(OnUnavailable::Allow);
    config.prompt_timeout_secs = 33;
    let mut policy = InteractivePolicy::load(config, &LearnedPolicyFile::default());
    match policy.decide("a.example", 8443, 1) {
        DecideStep::Lead(request) => {
            assert_eq!(request.host, "a.example");
            assert_eq!(request.port, 8443);
            assert_eq!(request.timeout_secs, 33);
            assert_eq!(request.fallback, PromptDecision::AllowOnce);
        }
        _ => panic!("the first request leads"),
    }
}

#[test]
fn unsaved_decision_keeps_waiters_waiting() {
    let mut caller = Caller::new(PromptDecision::AllowOnce);
    let _ = caller.policy.decide("a.example", 443, 1);
    let _ = caller.policy.decide("a.example", 443, 2);
    let settled = caller.policy.settle(
        "a.example",
        PromptOutcome::Answered(PromptDecision::AllowPermanentHost),
    );
    assert!(settled.save.is_some());
    assert_eq!(caller.policy.release("a.example", false), None);
    // The decision holds in memory all the same.
    assert_eq!(
        caller.policy.stored_decision("a.example"),
        Some(PermanentDecision::Allow)
    );
    assert_eq!(caller.policy.release("a.example", true), Some(vec![1, 2]));
}

#[test]
fn timed_out_prompt_denies_whatever_the_fallback() {
    for on_unavailable in [OnUnavailable::Allow, OnUnavailable::Deny] {
        let mut policy =
            InteractivePolicy::load(cfg(on_unavailable), &LearnedPolicyFile::default());
        let settled = policy.settle("a.example", PromptOutcome::TimedOut);
        assert_eq!(settled.decision, PromptDecision::DenyOnce);
        assert!(settled.save.is_none());
    }
}

#[test]
fn failed_prompt_yields_the_fallback() {
    let mut allow = InteractivePolicy::load(cfg(OnUnavailable::Allow), &LearnedPolicyFile::default());
    assert_eq!(
        allow.settle("a.example", PromptOutcome::Failed).decision,
        PromptDecision::AllowOnce
    );
    let mut deny = InteractivePolicy::load(cfg(OnUnavailable::Deny), &LearnedPolicyFile::default());
    assert_eq!(
        deny.settle("a.example", PromptOutcome::Failed).decision,
        PromptDecision::DenyOnce
    );
}

#[test]
fn exact_match_comes_before_suffix_and_longest_suffix_wins() {
    let mut caller = Caller::new(PromptDecision::AllowOnce);
    let policy = &mut caller.policy;
    assert!(policy.record_permanent("example.com", DecisionScope::Suffix, PermanentDecision::Deny));
    assert!(policy.record_permanent(
        "api.example.com",
        DecisionScope::Suffix,
        PermanentDecision::Allow
    ));
    assert!(policy.record_permanent(
        "v1.api.example.com",
        DecisionScope::Host,
        PermanentDecision::Deny
    ));
    assert_eq!(policy.stored_decision("example.com"), Some(PermanentDecision::Deny));
    assert_eq!(policy.stored_decision("www.example.com"), Some(PermanentDecision::Deny));
    assert_eq!(policy.stored_decision("api.example.com"), Some(PermanentDecision::Allow));
    assert_eq!(policy.stored_decision("v2.API.example.com"), Some(PermanentDecision::Allow));
    assert_eq!(policy.stored_decision("v1.api.example.com"), Some(PermanentDecision::Deny));
    assert_eq!(policy.stored_decision("x.v1.api.example.com"), Some(PermanentDecision::Allow));
    assert_eq!(policy.stored_decision("notexample.com"), None);
}

#[test]
fn recording_replaces_and_ignores_blank_hosts() {
    let mut caller = Caller::new(PromptDecision::AllowOnce);
    let policy = &mut caller.policy;
    assert!(policy.record_permanent(" A.Example ", DecisionScope::Host, PermanentDecision::Allow));
    assert!(policy.record_permanent("a.example", DecisionScope::Host, PermanentDecision::Deny));
    assert!(policy.record_permanent(".b.example", DecisionScope::Suffix, PermanentDecision::Allow));
    assert!(policy.record_permanent("B.example", DecisionScope::Suffix, PermanentDecision::Deny));
    assert!(!policy.record_permanent(" \t", DecisionScope::Host, PermanentDecision::Allow));
    assert!(!policy.record_permanent("", DecisionScope::Suffix, PermanentDecision::Allow));
    let file = policy.learned_file();
    assert_eq!(file.schema, 1);
    assert_eq!(file.entries.len(), 2);
    assert_eq!(file.entries[0].host, "a.example");
    assert_eq!(file.entries[0].scope, DecisionScope::Host);
    assert_eq!(file.entries[0].decision, PermanentDecision::Deny);
    assert_eq!(file.entries[1].host, "b.example");
    assert_eq!(file.entries[1].scope, DecisionScope::Suffix);
    assert_eq!(file.entries[1].decision, PermanentDecision::Deny);
}

#[test]
fn learned_file_is_sorted_by_host() {
    let mut caller = Caller::new(PromptDecision::AllowOnce);
    let policy = &mut caller.policy;
    for host in ["c.example", "a.example", "b.example"] {
        assert!(policy.record_permanent(host, DecisionScope::Host, PermanentDecision::Allow));
    }
    assert!(policy.record_permanent("b.example", DecisionScope::Suffix, PermanentDecision::Deny));
    let entries = policy.learned_file().entries;
    let hosts: Vec<&str> = entries.iter().map(|e| e.host.as_str()).collect();
    assert_eq!(hosts, vec!["a.example", "b.example", "b.example", "c.example"]);
    // The decision for the host comes before that for what lies below it.
    assert_eq!(entries[1].scope, DecisionScope::Host);
    assert_eq!(entries[2].scope, DecisionScope::Suffix);
}

#[test]
fn loading_normalizes_and_skips_blank_entries() {
    let entry = |host: &str, scope, decision| LearnedEntry {
        host: host.to_string(),
        scope,
        decision,
    };
    let file = LearnedPolicyFile {
        schema: 1,
        entries: vec![
            entry("  ", DecisionScope::Host, PermanentDecision::Allow),
            entry("...", DecisionScope::Suffix, PermanentDecision::Allow),
            entry(" API.Example ", DecisionScope::Host, PermanentDecision::Allow),
            entry("..Example.COM", DecisionScope::Suffix, PermanentDecision::Deny),
            // Of two suffix rules for one name the first one counts,
            entry("example.com", DecisionScope::Suffix, PermanentDecision::Allow),
            // and of two decisions for one host the last one.
            entry("api.example", DecisionScope::Host, PermanentDecision::Deny),
        ],
    };
    let policy = InteractivePolicy::load(cfg(OnUnavailable::Deny), &file);
    assert_eq!(policy.stored_decision("api.example"), Some(PermanentDecision::Deny));
    assert_eq!(policy.stored_decision("www.example.com"), Some(PermanentDecision::Deny));
    assert_eq!(policy.stored_decision(""), None);
    assert_eq!(policy.learned_file().entries.len(), 3);
}

#[test]
fn whole_policy_survives_writing_and_reading() {
    let mut caller = Caller::new(PromptDecision::AllowOnce);
    let policy = &mut caller.policy;
    assert!(policy.record_permanent("a.example", DecisionScope::Host, PermanentDecision::Allow));
    assert!(policy.record_permanent("b.example", DecisionScope::Suffix, PermanentDecision::Deny));
    let again = InteractivePolicy::load(
        cfg(OnUnavailable::Deny),
        &read_json(&write_json(&policy.learned_file())),
    );
    for host in ["a.example", "x.a.example", "b.example", "x.b.example", "c.example"] {
        assert_eq!(again.stored_decision(host), policy.stored_decision(host));
    }
    assert_eq!(write_json(&again.learned_file()), write_json(&policy.learned_file()));
}

#[test]
fn lookups_fold_letters_beyond_ascii() {
    let mut caller = Caller::new(PromptDecision::AllowOnce);
    assert!(caller.policy.record_permanent(
        "B\u{dc}CHER.example",
        DecisionScope::Host,
        PermanentDecision::Allow
    ));
    assert_eq!(
        caller.policy.stored_decision("b\u{fc}cher.EXAMPLE"),
        Some(PermanentDecision::Allow)
    );
}

#[test]
fn other_schema_is_noticed() {
    let mut file = LearnedPolicyFile::default();
    assert_eq!(file.schema, 1);
    assert!(file.entries.is_empty());
    assert!(!file.has_other_schema());
    file.schema = 2;
    assert!(file.has_other_schema());
    assert_eq!(nono_proxy::learned::default_schema(), 1);
}

#[test]
fn blank_file_has_no_data() {
    assert!(!nono_proxy::learned::has_learned_data(None));
    assert!(!nono_proxy::learned::has_learned_data(Some(" \n\t")));
    assert!(nono_proxy::learned::has_learned_data(Some(" {} ")));
}

#[test]
fn file_is_cloned_with_its_entries() {
    let mut caller = Caller::new(PromptDecision::AllowOnce);
    assert!(caller.policy.record_permanent("a.example", DecisionScope::Host, PermanentDecision::Deny));
    let file = caller.policy.learned_file();
    assert_eq!(write_json(&file.clone()), write_json(&file));
}

#[test]
fn recorded_host_is_found_under_its_normalized_name() {
    let mut caller = Caller::new(PromptDecision::AllowOnce);
    let policy = &mut caller.policy;
    assert!(policy.record_permanent("example.com", DecisionScope::Suffix, PermanentDecision::Allow));
    assert!(policy.record_permanent("api.example.com", DecisionScope::Host, PermanentDecision::Allow));
    assert!(policy.record_permanent(
        " API.Example.com ",
        DecisionScope::Host,
        PermanentDecision::Deny
    ));
    assert_eq!(policy.stored_decision("api.example.com"), Some(PermanentDecision::Deny));
    assert_eq!(policy.stored_decision("www.example.com"), Some(PermanentDecision::Allow));
    let entries = policy.learned_file().entries;
    let about: Vec<&LearnedEntry> = entries.iter().filter(|e| e.host == "api.example.com").collect();
    assert_eq!(about.len(), 1);
    assert_eq!(about[0].decision, PermanentDecision::Deny);
}

#[test]
fn many_prompts_are_kept_apart() {
    let mut caller = Caller::new(PromptDecision::AllowOnce);
    let host = |n: u64| format!("h{}.example", n);
    for n in 0..50 {
        assert!(matches!(caller.policy.decide(&host(n), 443, n), DecideStep::Lead(_)));
    }
    for n in 0..50 {
        assert!(matches!(caller.policy.decide(&host(n), 443, 100 + n), DecideStep::Wait));
    }
    // Ended from the middle outwards, each hands back its own.
    for n in (25..50).chain(0..25) {
        assert_eq!(caller.policy.release(&host(n), true), Some(vec![n, 100 + n]));
        assert_eq!(caller.policy.release(&host(n), true), Some(vec![]));
    }
}
