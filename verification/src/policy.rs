//! The interactive policy: stored decisions, prompts under way, and what an
//! answer at a prompt changes.
//!
//! The policy holds no lock and waits for nobody. A caller asks it what to do
//! about a host ([`InteractivePolicy::decide`]), shows the prompt where it is
//! told to lead, hands the outcome back ([`InteractivePolicy::settle`]), saves
//! the file it is given, and releases those that wait
//! ([`InteractivePolicy::release`]).

use crate::decision::{
    DecisionScope, InteractivePolicyConfig, OnUnavailable, PermanentDecision, PromptDecision,
};
use crate::host;
use crate::learned;
use crate::learned::{LearnedPolicyFile, RuleModel, SuffixRule};
use crate::table::Table;
use crate::text;
use vstd::prelude::*;

verus! {

// ---------------------------------------------------------------------------
// Model
// ---------------------------------------------------------------------------

/// Whether rule `i` is the one that decides about a lowercased host: it covers
/// the host, no rule with a longer pattern does, and it is the first of those
/// with its pattern.
pub open spec fn is_longest_match(rules: Seq<RuleModel>, lower: Seq<char>, i: int) -> bool {
    &&& 0 <= i < rules.len()
    &&& host::covers(rules[i].pattern, lower)
    &&& forall|j: int|
        0 <= j < rules.len() && host::covers((#[trigger] rules[j]).pattern, lower)
            ==> rules[j].pattern.len() < rules[i].pattern.len() || (rules[j].pattern.len()
            == rules[i].pattern.len() && i <= j)
}

/// What the suffix rules decide about a lowercased host.
pub open spec fn rule_decision(rules: Seq<RuleModel>, lower: Seq<char>) -> Option<
    PermanentDecision,
> {
    if exists|i: int| is_longest_match(rules, lower, i) {
        let i = choose|i: int| is_longest_match(rules, lower, i);
        Some(rules[i].decision)
    } else {
        None
    }
}

/// Whether rule `i` is the first with a pattern.
pub open spec fn is_first_rule(rules: Seq<RuleModel>, pattern: Seq<char>, i: int) -> bool {
    &&& 0 <= i < rules.len()
    &&& rules[i].pattern == pattern
    &&& forall|j: int| 0 <= j < i ==> (#[trigger] rules[j]).pattern != pattern
}

/// The rules with a decision for a pattern: in the place of the first rule with
/// that pattern, or behind the others where there is none.
pub open spec fn with_rule(
    rules: Seq<RuleModel>,
    pattern: Seq<char>,
    decision: PermanentDecision,
) -> Seq<RuleModel> {
    let rule = RuleModel { pattern, decision };
    if exists|i: int| is_first_rule(rules, pattern, i) {
        rules.update(choose|i: int| is_first_rule(rules, pattern, i), rule)
    } else {
        rules.push(rule)
    }
}

/// What the policy knows.
pub struct PolicyModel {
    /// Decisions for single hosts, by lowercased name.
    pub exact: Map<Seq<char>, PermanentDecision>,
    /// Decisions for names and everything below them.
    pub rules: Seq<RuleModel>,
    /// Who waits for a prompt, by lowercased name, in the order of asking.
    pub pending: Map<Seq<char>, Seq<u64>>,
}

impl PolicyModel {
    /// The stored decision for a host: one for the host itself, else that of
    /// the longest suffix that covers it.
    pub open spec fn stored(self, host: Seq<char>) -> Option<PermanentDecision> {
        let lower = text::lowercase(host);
        if self.exact.dom().contains(lower) {
            Some(self.exact[lower])
        } else {
            rule_decision(self.rules, lower)
        }
    }

    /// The policy after a permanent decision about a host or suffix. One about
    /// nothing (a blank host) leaves it as it is.
    pub open spec fn recorded(
        self,
        host: Seq<char>,
        scope: DecisionScope,
        decision: PermanentDecision,
    ) -> PolicyModel {
        let key = text::normalized(host);
        if key.len() == 0 {
            self
        } else {
            match scope {
                DecisionScope::Host => PolicyModel { exact: self.exact.insert(key, decision), ..self
                },
                DecisionScope::Suffix => PolicyModel {
                    rules: with_rule(self.rules, text::strip_start(key, '.'), decision),
                    ..self
                },
            }
        }
    }

    /// What a permanent decision at the prompt for a host is recorded for: the
    /// host itself, or the suffix suggested for it.
    pub open spec fn target(host: Seq<char>, scope: DecisionScope) -> Seq<char> {
        match scope {
            DecisionScope::Host => host,
            DecisionScope::Suffix => host::suffix_hint(host),
        }
    }

    /// The policy after a decision at the prompt for a host.
    pub open spec fn answered(self, host: Seq<char>, decision: PromptDecision) -> PolicyModel {
        match decision.stores() {
            Some((scope, stored)) => self.recorded(
                PolicyModel::target(host, scope),
                scope,
                stored,
            ),
            None => self,
        }
    }

    /// Whether the tables change with a decision at the prompt for a host, so
    /// that they have to be saved.
    pub open spec fn saves(host: Seq<char>, decision: PromptDecision) -> bool {
        match decision.stores() {
            Some((scope, _)) => text::normalized(PolicyModel::target(host, scope)).len() > 0,
            None => false,
        }
    }

    /// Whether a request for a host has to show the prompt: no stored decision
    /// covers it and no prompt for it is under way.
    pub open spec fn leads(self, host: Seq<char>) -> bool {
        self.stored(host) is None && !self.pending.dom().contains(text::lowercase(host))
    }

    /// Whether a request for a host has to wait for a prompt under way.
    pub open spec fn waits(self, host: Seq<char>) -> bool {
        self.stored(host) is None && self.pending.dom().contains(text::lowercase(host))
    }

    /// The policy after a request joined those that want a prompt for a host.
    pub open spec fn asked(self, host: Seq<char>, ticket: u64) -> PolicyModel {
        let key = text::lowercase(host);
        let waiting = if self.pending.dom().contains(key) {
            self.pending[key]
        } else {
            Seq::empty()
        };
        PolicyModel { pending: self.pending.insert(key, waiting.push(ticket)), ..self }
    }

    /// The policy after the prompt for a host is over.
    pub open spec fn released(self, host: Seq<char>) -> PolicyModel {
        PolicyModel { pending: self.pending.remove(text::lowercase(host)), ..self }
    }

    /// Those that wait for the prompt for a host.
    pub open spec fn waiting(self, host: Seq<char>) -> Seq<u64> {
        let key = text::lowercase(host);
        if self.pending.dom().contains(key) {
            self.pending[key]
        } else {
            Seq::empty()
        }
    }
}

// ---------------------------------------------------------------------------
// Policy
// ---------------------------------------------------------------------------

/// What a prompt has to show, and what it falls back to.
pub struct PromptRequest {
    pub host: String,
    pub port: u16,
    pub timeout_secs: u64,
    /// The decision where nobody could be asked.
    pub fallback: PromptDecision,
}

/// What a request for a host has to do.
pub enum DecideStep {
    /// A stored decision covers the host.
    Stored(PromptDecision),
    /// Show the prompt; the outcome goes to [`InteractivePolicy::settle`].
    Lead(PromptRequest),
    /// Wait for the prompt that is under way.
    Wait,
}

/// How a prompt ended.
#[derive(Debug, Clone, Copy, PartialEq, Eq, Structural)]
pub enum PromptOutcome {
    /// The user decided.
    Answered(PromptDecision),
    /// The user did not decide in time.
    TimedOut,
    /// The prompt failed otherwise.
    Failed,
}

impl PromptOutcome {
    /// The decision that an outcome amounts to. A prompt that timed out denies;
    /// one that failed otherwise yields the configured fallback.
    pub open spec fn decision(self, on_unavailable: OnUnavailable) -> PromptDecision {
        match self {
            PromptOutcome::Answered(decision) => decision,
            PromptOutcome::TimedOut => PromptDecision::DenyOnce,
            PromptOutcome::Failed => on_unavailable.decision(),
        }
    }
}

/// What the end of a prompt amounts to.
pub struct Settled {
    pub decision: PromptDecision,
    /// The file to save before those that wait are released.
    pub save: Option<LearnedPolicyFile>,
}

/// Interactive policy evaluator.
///
/// Starts from the learned-policy file, performs constant-time host lookups,
/// and coalesces concurrent prompts for the same host.
pub struct InteractivePolicy {
    config: InteractivePolicyConfig,
    /// Exact host -> permanent decision (lowercased keys).
    exact: Table<PermanentDecision>,
    /// Suffix patterns (lowercased, no leading dot) -> permanent decision.
    suffix: Vec<SuffixRule>,
    /// In-flight prompts, keyed by lowercased hostname. Concurrent requests
    /// for the same host share a single prompt response.
    pending: Table<Vec<u64>>,
}

impl View for InteractivePolicy {
    type V = PolicyModel;

    closed spec fn view(&self) -> PolicyModel {
        PolicyModel {
            exact: self.exact@,
            rules: learned::rule_models(self.suffix@),
            pending: self.pending@.map_values(|tickets: Vec<u64>| tickets@),
        }
    }
}

impl InteractivePolicy {
    /// The configuration.
    pub closed spec fn config(&self) -> InteractivePolicyConfig {
        self.config
    }

    /// Build an evaluator from a configuration and the learned-policy file.
    pub fn load(config: InteractivePolicyConfig, file: &LearnedPolicyFile) -> (r: Self)
        ensures
            r.config() == config,
            r@.exact == learned::loaded_exact(learned::entry_models(file.entries@)),
            r@.rules == learned::loaded_suffix(learned::entry_models(file.entries@)),
            r@.pending == Map::<Seq<char>, Seq<u64>>::empty(),
    {
        let (exact, suffix) = learned::tables_of(&file.entries);
        let pending: Table<Vec<u64>> = Table::new();
        let r = InteractivePolicy { config, exact, suffix, pending };
        assert(r@.pending =~= Map::<Seq<char>, Seq<u64>>::empty());
        r
    }

    /// Look up a stored decision for the given host, if any.
    ///
    /// Checks exact matches first, then longest suffix match.
    #[must_use]
    pub fn stored_decision(&self, host: &str) -> (r: Option<PermanentDecision>)
        ensures
            r == self@.stored(host@),
    {
        let lower = host.to_lowercase();
        let ghost key = lower@;
        assert(key == text::lowercase(host@));
        match self.exact.get(lower.as_str()) {
            Some(decision) => {
                return Some(*decision);
            },
            None => {},
        }
        let ghost rules = learned::rule_models(self.suffix@);
        let mut best: Option<usize> = None;
        let mut i: usize = 0;
        while i < self.suffix.len()
            invariant
                i <= self.suffix@.len(),
                rules == learned::rule_models(self.suffix@),
                key == lower@,
                match best {
                    Some(b) => b < i && is_longest_match(rules.take(i as int), key, b as int),
                    None => forall|j: int|
                        0 <= j < i ==> !host::covers((#[trigger] rules[j]).pattern, key),
                },
            decreases self.suffix@.len() - i,
        {
            assert(rules[i as int].pattern == self.suffix@[i as int].pattern@);
            if host::is_covered(self.suffix[i].pattern.as_str(), lower.as_str()) {
                match best {
                    Some(b) => {
                        assert(rules[b as int].pattern == self.suffix@[b as int].pattern@);
                        if self.suffix[b].pattern.as_str().unicode_len()
                            < self.suffix[i].pattern.as_str().unicode_len() {
                            best = Some(i);
                        }
                        proof {
                            let front = rules.take(i as int);
                            assert(forall|j: int| 0 <= j < i ==> front[j] == #[trigger] rules[j]);
                        }
                    },
                    None => {
                        best = Some(i);
                    },
                }
            }
            proof {
                let after = rules.take(i + 1);
                assert(forall|j: int| 0 <= j <= i ==> after[j] == #[trigger] rules[j]);
                assert(forall|j: int|
                    0 <= j < i ==> rules.take(i as int)[j] == #[trigger] rules[j]);
            }
            i += 1;
        }
        assert(rules.take(rules.len() as int) =~= rules);
        match best {
            Some(b) => {
                proof {
                    lemma_longest_match_unique(
                        rules,
                        key,
                        b as int,
                        choose|j: int| is_longest_match(rules, key, j),
                    );
                }
                Some(self.suffix[b].decision)
            },
            None => None,
        }
    }

    /// Decide whether `host` should be allowed. Where no stored decision covers
    /// it, the first request leads and shows the prompt, and the others wait
    /// for its outcome. `ticket` stands for the request among those that wait.
    #[must_use]
    pub fn decide(&mut self, host: &str, port: u16, ticket: u64) -> (r: DecideStep)
        ensures
            final(self).config() == old(self).config(),
            match old(self)@.stored(host@) {
                Some(stored) => r == DecideStep::Stored(PromptDecision::once(stored))
                    && final(self)@ == old(self)@,
                None => final(self)@ == old(self)@.asked(host@, ticket),
            },
            old(self)@.waits(host@) <==> r == DecideStep::Wait,
            old(self)@.leads(host@) <==> r is Lead,
            r matches DecideStep::Lead(request) ==> {
                &&& request.host@ == host@
                &&& request.port == port
                &&& request.timeout_secs == old(self).config().prompt_timeout_secs
                &&& request.fallback == old(self).config().on_unavailable.decision()
            },
    {
        match self.stored_decision(host) {
            Some(stored) => {
                return DecideStep::Stored(PromptDecision::from_stored(stored));
            },
            None => {},
        }
        let key = host.to_lowercase();
        let ghost k = key@;
        let removed = self.pending.remove(key.as_str());
        let mut tickets: Vec<u64> = Vec::new();
        let mut leader = true;
        match removed {
            Some(waiting) => {
                tickets = waiting;
                leader = false;
            },
            None => {},
        }
        tickets.push(ticket);
        let ghost all = tickets@;
        self.pending.insert(key, tickets);
        proof {
            assert(all == old(self)@.waiting(host@).push(ticket));
            assert(self@.pending =~= old(self)@.pending.insert(k, all));
        }
        if leader {
            DecideStep::Lead(
                PromptRequest {
                    host: host.to_owned(),
                    port,
                    timeout_secs: self.config.prompt_timeout_secs,
                    fallback: self.config.on_unavailable.fallback(),
                },
            )
        } else {
            DecideStep::Wait
        }
    }

    /// Takes the outcome of the prompt for `host`: stores a permanent decision
    /// and says what to save for it. Those that wait are still waiting.
    #[must_use]
    pub fn settle(&mut self, host: &str, outcome: PromptOutcome) -> (r: Settled)
        ensures
            final(self).config() == old(self).config(),
            r.decision == outcome.decision(old(self).config().on_unavailable),
            outcome matches PromptOutcome::Answered(answer) ==> r.decision == answer,
            outcome is TimedOut ==> r.decision is DenyOnce,
            outcome is Failed ==> r.decision == (if old(self).config().on_unavailable is Allow {
                PromptDecision::AllowOnce
            } else {
                PromptDecision::DenyOnce
            }),
            final(self)@ == old(self)@.answered(host@, r.decision),
            r.save is Some == PolicyModel::saves(host@, r.decision),
            r.save matches Some(file) ==> {
                &&& file.schema == learned::LEARNED_POLICY_SCHEMA
                &&& learned::records(
                    learned::entry_models(file.entries@),
                    final(self)@.exact,
                    final(self)@.rules,
                )
            },
    {
        let decision = match outcome {
            PromptOutcome::Answered(decision) => decision,
            PromptOutcome::TimedOut => PromptDecision::DenyOnce,
            PromptOutcome::Failed => self.config.on_unavailable.fallback(),
        };
        let mut save: Option<LearnedPolicyFile> = None;
        match (decision.as_permanent(), decision.scope()) {
            (Some(stored), Some(scope)) => {
                let target = match scope {
                    DecisionScope::Host => host.to_owned(),
                    DecisionScope::Suffix => host::registered_suffix_hint(host),
                };
                if self.record_permanent(target.as_str(), scope, stored) {
                    save = Some(self.learned_file());
                }
            },
            _ => {},
        }
        Settled { decision, save }
    }

    /// Ends the prompt for `host` and hands back those that wait for it, in the
    /// order in which they asked. Where the decision could not be saved, nobody
    /// is handed back and they go on waiting.
    #[must_use]
    pub fn release(&mut self, host: &str, saved: bool) -> (r: Option<Vec<u64>>)
        ensures
            final(self).config() == old(self).config(),
            match r {
                Some(tickets) => {
                    &&& saved
                    &&& tickets@ == old(self)@.waiting(host@)
                    &&& final(self)@ == old(self)@.released(host@)
                },
                None => !saved && final(self)@ == old(self)@,
            },
    {
        if !saved {
            return None;
        }
        let key = host.to_lowercase();
        let removed = self.pending.remove(key.as_str());
        assert(self@.pending =~= old(self)@.pending.remove(key@));
        match removed {
            Some(tickets) => Some(tickets),
            None => Some(Vec::new()),
        }
    }

    /// Stores a permanent decision about a host or suffix. Says whether there
    /// was anything to store; if so, the tables have to be saved.
    #[must_use]
    pub fn record_permanent(
        &mut self,
        host: &str,
        scope: DecisionScope,
        decision: PermanentDecision,
    ) -> (r: bool)
        ensures
            final(self).config() == old(self).config(),
            r == (text::normalized(host@).len() > 0),
            final(self)@ == old(self)@.recorded(host@, scope, decision),
    {
        let normalized = text::normalize(host);
        if normalized.as_str().is_empty() {
            return false;
        }
        match scope {
            DecisionScope::Host => {
                self.exact.insert(normalized, decision);
            },
            DecisionScope::Suffix => {
                let pattern = text::trim_start_char(normalized.as_str(), '.');
                self.set_rule(pattern, decision);
            },
        }
        true
    }

    /// Replaces the rule for a pattern, or adds one.
    fn set_rule(&mut self, pattern: String, decision: PermanentDecision)
        ensures
            final(self).config() == old(self).config(),
            final(self)@ == (PolicyModel {
                rules: with_rule(old(self)@.rules, pattern@, decision),
                ..old(self)@
            }),
    {
        let ghost rules = learned::rule_models(self.suffix@);
        let ghost p = pattern@;
        let ghost rule = RuleModel { pattern: p, decision };
        let mut i: usize = 0;
        while i < self.suffix.len()
            invariant
                *self == *old(self),
                p == pattern@,
                rule == (RuleModel { pattern: p, decision }),
                i <= self.suffix@.len(),
                rules == learned::rule_models(self.suffix@),
                forall|j: int| 0 <= j < i ==> (#[trigger] rules[j]).pattern != p,
            decreases self.suffix@.len() - i,
        {
            assert(rules[i as int].pattern == self.suffix@[i as int].pattern@);
            if text::same_text(self.suffix[i].pattern.as_str(), pattern.as_str()) {
                self.suffix[i] = SuffixRule { pattern, decision };
                proof {
                    assert(is_first_rule(rules, p, i as int));
                    let k = choose|k: int| is_first_rule(rules, p, k);
                    assert(rules[k].pattern == p);
                    assert(k == i);
                    assert(learned::rule_models(self.suffix@) =~= rules.update(i as int, rule));
                }
                return ;
            }
            i += 1;
        }
        self.suffix.push(SuffixRule { pattern, decision });
        assert(learned::rule_models(self.suffix@) =~= rules.push(rule));
    }

    /// The file that records every stored decision.
    #[must_use]
    pub fn learned_file(&self) -> (r: LearnedPolicyFile)
        ensures
            r.schema == learned::LEARNED_POLICY_SCHEMA,
            learned::records(learned::entry_models(r.entries@), self@.exact, self@.rules),
    {
        LearnedPolicyFile {
            schema: learned::LEARNED_POLICY_SCHEMA,
            entries: learned::entries_of(&self.exact, &self.suffix),
        }
    }
}

/// At most one rule is the longest match.
proof fn lemma_longest_match_unique(rules: Seq<RuleModel>, lower: Seq<char>, i: int, j: int)
    requires
        is_longest_match(rules, lower, i),
        is_longest_match(rules, lower, j),
    ensures
        i == j,
{
    assert(host::covers(rules[i].pattern, lower));
    assert(host::covers(rules[j].pattern, lower));
}

} // verus!
