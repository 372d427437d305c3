//! Laws of the interactive policy.

use crate::decision::{DecisionScope, OnUnavailable, PermanentDecision, PromptDecision};
use crate::host;
use crate::host_laws;
use crate::learned;
use crate::learned::{EntryModel, RuleModel};
use crate::policy;
use crate::policy::{PolicyModel, PromptOutcome};
use crate::text;
use crate::text_laws;
use vstd::prelude::*;

verus! {

// ---------------------------------------------------------------------------
// Answers at the prompt
// ---------------------------------------------------------------------------

/// A decision for one request leaves the policy as it was, and there is nothing
/// to save.
pub proof fn law_once_is_not_stored(p: PolicyModel, host: Seq<char>, decision: PromptDecision)
    requires
        decision is AllowOnce || decision is DenyOnce,
    ensures
        p.answered(host, decision) == p,
        !PolicyModel::saves(host, decision),
{
}

/// A permanent decision about a host is stored and found again, in whatever
/// case the host is spelled, for every host that white space does not surround.
pub proof fn law_permanent_host_is_reused(
    p: PolicyModel,
    host: Seq<char>,
    again: Seq<char>,
    decision: PromptDecision,
    stored: PermanentDecision,
)
    requires
        decision.stores() == Some((DecisionScope::Host, stored)),
        text::trimmed(host) == host,
        text::lowercase(host).len() > 0,
        text::lowercase(again) == text::lowercase(host),
    ensures
        PolicyModel::saves(host, decision),
        p.answered(host, decision).stored(again) == Some(stored),
        !p.answered(host, decision).leads(again),
        !p.answered(host, decision).waits(again),
{
}

/// A permanent decision about a host changes nothing for any other host.
pub proof fn law_permanent_host_is_local(
    p: PolicyModel,
    host: Seq<char>,
    other: Seq<char>,
    decision: PromptDecision,
    stored: PermanentDecision,
)
    requires
        decision.stores() == Some((DecisionScope::Host, stored)),
        text::lowercase(other) != text::normalized(host),
    ensures
        p.answered(host, decision).stored(other) == p.stored(other),
{
}

/// A recorded decision for a host is what is stored for it, however its name is
/// spelled, whatever was stored before and whatever suffixes cover it. Nothing
/// changes for any other host, and the file has one entry for the host itself,
/// with the decision.
pub proof fn law_recorded_host_is_found(
    p: PolicyModel,
    host: Seq<char>,
    decision: PermanentDecision,
    name: Seq<char>,
    entries: Seq<EntryModel>,
)
    requires
        text::normalized(host).len() > 0,
        learned::records(
            entries,
            p.recorded(host, DecisionScope::Host, decision).exact,
            p.recorded(host, DecisionScope::Host, decision).rules,
        ),
    ensures
        text::lowercase(name) == text::normalized(host) ==> p.recorded(
            host,
            DecisionScope::Host,
            decision,
        ).stored(name) == Some(decision),
        text::lowercase(name) != text::normalized(host) ==> p.recorded(
            host,
            DecisionScope::Host,
            decision,
        ).stored(name) == p.stored(name),
        learned::entries_about(entries, text::normalized(host)).filter(is_host_entry()) == seq![
            learned::exact_entry(text::normalized(host), decision),
        ],
{
    broadcast use Seq::filter_distributes_over_add;

    reveal(Seq::filter);
    let key = text::normalized(host);
    let after = p.recorded(host, DecisionScope::Host, decision);
    let one = seq![learned::exact_entry(key, decision)];
    let rest = learned::entries_about(learned::suffix_entries(after.rules), key);
    assert(learned::entries_about(entries, key) == learned::exact_entries(after.exact, key) + rest);
    lemma_recorded_suffix(after.rules, key);
    lemma_no_host_entry(rest);
    assert(one.drop_last() =~= Seq::<EntryModel>::empty());
    assert(one.filter(is_host_entry()) =~= one);
    assert(learned::entries_about(entries, key).filter(is_host_entry()) =~= one);
}

/// A recorded decision for an ASCII host is found under its normalized name.
pub proof fn law_recorded_ascii_host_is_found(
    p: PolicyModel,
    host: Seq<char>,
    decision: PermanentDecision,
)
    requires
        text_laws::is_ascii(host),
        text::normalized(host).len() > 0,
    ensures
        p.recorded(host, DecisionScope::Host, decision).stored(text::normalized(host)) == Some(
            decision,
        ),
{
    text_laws::lemma_normalized_ascii(host);
}

/// Whether an entry is about a host itself.
pub open spec fn is_host_entry() -> spec_fn(EntryModel) -> bool {
    |e: EntryModel| e.scope is Host
}

/// Entries about suffixes hold none about a host itself.
proof fn lemma_no_host_entry(entries: Seq<EntryModel>)
    requires
        forall|i: int| 0 <= i < entries.len() ==> (#[trigger] entries[i]).scope is Suffix,
    ensures
        entries.filter(is_host_entry()) == Seq::<EntryModel>::empty(),
    decreases entries.len(),
{
    reveal(Seq::filter);
    if entries.len() > 0 {
        let front = entries.drop_last();
        assert forall|i: int| 0 <= i < front.len() implies (#[trigger] front[i]).scope is Suffix by {
            assert(front[i] == entries[i]);
        }
        lemma_no_host_entry(front);
        assert(entries.last() == entries[entries.len() - 1]);
    }
}

/// A prompt that nobody answered in time denies, whatever the configuration
/// says, and any other failure denies unless the configuration says otherwise.
pub proof fn law_unanswered_prompt_denies(on_unavailable: OnUnavailable)
    ensures
        !PromptOutcome::TimedOut.decision(on_unavailable).allows(),
        PromptOutcome::Failed.decision(on_unavailable).allows() <==> on_unavailable is Allow,
        PromptOutcome::TimedOut.decision(on_unavailable).stores() is None,
        PromptOutcome::Failed.decision(on_unavailable).stores() is None,
{
}

// ---------------------------------------------------------------------------
// Prompts under way
// ---------------------------------------------------------------------------

/// Of the requests for a host that no stored decision covers, spelled in
/// whatever case, only the first leads; the others wait until it is released.
pub proof fn law_one_request_leads(
    p: PolicyModel,
    host: Seq<char>,
    again: Seq<char>,
    first: u64,
    second: u64,
)
    requires
        text::lowercase(again) == text::lowercase(host),
        p.leads(host),
    ensures
        p.asked(host, first).waits(again),
        !p.asked(host, first).leads(again),
        p.asked(host, first).asked(again, second).waits(host),
        p.asked(host, first).asked(again, second).released(host).leads(again),
{
}

/// Everyone who asked since the prompt for a host began is handed back when it
/// ends, in the order of asking.
pub proof fn law_release_hands_back_everyone(
    p: PolicyModel,
    host: Seq<char>,
    again: Seq<char>,
    first: u64,
    second: u64,
)
    requires
        text::lowercase(again) == text::lowercase(host),
        p.leads(host),
    ensures
        p.asked(host, first).waiting(again) == seq![first],
        p.asked(host, first).asked(again, second).waiting(host) == seq![first, second],
        p.asked(host, first).asked(again, second).released(host).waiting(host) == Seq::<u64>::empty(),
{
    assert(p.asked(host, first).waiting(again) =~= seq![first]);
    assert(p.asked(host, first).asked(again, second).waiting(host) =~= seq![first, second]);
}

/// The policy after a run of requests, each a host and a ticket, while no prompt
/// ends. Those that a stored decision covers leave it as it is.
pub open spec fn asked_by(p: PolicyModel, requests: Seq<(Seq<char>, u64)>) -> PolicyModel
    decreases requests.len(),
{
    if requests.len() == 0 {
        p
    } else {
        let before = asked_by(p, requests.drop_last());
        let (host, ticket) = requests.last();
        if before.stored(host) is Some {
            before
        } else {
            before.asked(host, ticket)
        }
    }
}

/// The tickets of the requests for a host, spelled in whatever case.
pub open spec fn tickets_for(requests: Seq<(Seq<char>, u64)>, host: Seq<char>) -> Seq<u64>
    decreases requests.len(),
{
    if requests.len() == 0 {
        Seq::empty()
    } else {
        let before = tickets_for(requests.drop_last(), host);
        if text::lowercase(requests.last().0) == text::lowercase(host) {
            before.push(requests.last().1)
        } else {
            before
        }
    }
}

/// How many of a run of requests for a host are told to show the prompt.
pub open spec fn leaders(p: PolicyModel, requests: Seq<(Seq<char>, u64)>, host: Seq<char>) -> nat
    decreases requests.len(),
{
    if requests.len() == 0 {
        0
    } else {
        let before = leaders(p, requests.drop_last(), host);
        let last = requests.last().0;
        if text::lowercase(last) == text::lowercase(host) && asked_by(
            p,
            requests.drop_last(),
        ).leads(last) {
            before + 1
        } else {
            before
        }
    }
}

/// However many requests come in for whatever hosts, one prompt is shown for a
/// host that nothing is stored for, none where one is under way, and everyone
/// who asked for the host waits for it in the order of asking. The stored
/// decisions stay as they are.
pub proof fn law_requests_coalesce(
    p: PolicyModel,
    requests: Seq<(Seq<char>, u64)>,
    host: Seq<char>,
)
    requires
        p.stored(host) is None,
    ensures
        asked_by(p, requests).waiting(host) == p.waiting(host) + tickets_for(requests, host),
        leaders(p, requests, host) == (if p.leads(host) && tickets_for(requests, host).len() > 0 {
            1nat
        } else {
            0nat
        }),
        asked_by(p, requests).leads(host) <==> p.leads(host) && tickets_for(requests, host).len()
            == 0,
        asked_by(p, requests).exact == p.exact,
        asked_by(p, requests).rules == p.rules,
    decreases requests.len(),
{
    let after = asked_by(p, requests);
    let tickets = tickets_for(requests, host);
    if requests.len() > 0 {
        let front = requests.drop_last();
        let before = asked_by(p, front);
        let last = requests.last().0;
        law_requests_coalesce(p, front, host);
        assert(before.stored(last) == p.stored(last));
        if text::lowercase(last) == text::lowercase(host) {
            assert(p.stored(last) == p.stored(host));
            assert(after == before.asked(last, requests.last().1));
            assert(after.waiting(host) =~= p.waiting(host) + tickets);
        } else {
            assert(after.waiting(host) == before.waiting(host));
            assert(after.leads(host) == before.leads(host));
        }
    } else {
        assert(p.waiting(host) =~= p.waiting(host) + tickets);
    }
}

/// Whether somebody waits for every prompt that is under way.
pub open spec fn has_no_empty_queue(p: PolicyModel) -> bool {
    forall|key: Seq<char>| #[trigger] p.pending.dom().contains(key) ==> p.pending[key].len() > 0
}

/// Somebody waits for every prompt under way: it is so at the start, and every
/// step keeps it so.
pub proof fn law_prompts_have_waiters(
    p: PolicyModel,
    host: Seq<char>,
    ticket: u64,
    decision: PromptDecision,
    entries: Seq<EntryModel>,
)
    requires
        has_no_empty_queue(p),
    ensures
        has_no_empty_queue(loaded(entries)),
        has_no_empty_queue(p.asked(host, ticket)),
        has_no_empty_queue(p.answered(host, decision)),
        has_no_empty_queue(p.released(host)),
        p.leads(host) ==> p.waiting(host).len() == 0,
        p.waits(host) ==> p.waiting(host).len() > 0,
{
    let asked = p.asked(host, ticket);
    assert forall|key: Seq<char>| #[trigger] asked.pending.dom().contains(key) implies asked.pending[key].len()
        > 0 by {
        if key != text::lowercase(host) {
            assert(p.pending.dom().contains(key));
        }
    }
    let released = p.released(host);
    assert forall|key: Seq<char>| #[trigger]
        released.pending.dom().contains(key) implies released.pending[key].len() > 0 by {
        assert(p.pending.dom().contains(key));
    }
    assert(p.answered(host, decision).pending == p.pending);
}

/// Asking and releasing leave the stored decisions alone, and an answer leaves
/// alone who waits.
pub proof fn law_prompts_and_tables_are_apart(
    p: PolicyModel,
    host: Seq<char>,
    other: Seq<char>,
    ticket: u64,
    decision: PromptDecision,
)
    ensures
        p.asked(host, ticket).stored(other) == p.stored(other),
        p.released(host).stored(other) == p.stored(other),
        p.answered(host, decision).waiting(other) == p.waiting(other),
        text::lowercase(other) != text::lowercase(host) ==> p.asked(host, ticket).waiting(other)
            == p.waiting(other) && p.released(host).waiting(other) == p.waiting(other),
{
}

// ---------------------------------------------------------------------------
// Suffix rules
// ---------------------------------------------------------------------------

/// Two patterns of one length that cover the same host are the same.
proof fn lemma_same_length_patterns(a: Seq<char>, b: Seq<char>, lower: Seq<char>)
    requires
        host::covers(a, lower),
        host::covers(b, lower),
        a.len() == b.len(),
    ensures
        a == b,
{
    lemma_pattern_is_tail(a, lower);
    lemma_pattern_is_tail(b, lower);
}

/// A pattern that covers a host is how the host ends.
proof fn lemma_pattern_is_tail(pattern: Seq<char>, lower: Seq<char>)
    requires
        host::covers(pattern, lower),
    ensures
        pattern.len() <= lower.len(),
        pattern == lower.skip(lower.len() - pattern.len()),
{
    if lower == pattern {
        assert(lower.skip(0) =~= lower);
    } else {
        let dotted = seq!['.'] + pattern;
        let k = lower.len() - dotted.len();
        assert(dotted == lower.subrange(k, lower.len() as int));
        assert(dotted.skip(1) =~= pattern);
        assert(lower.subrange(k, lower.len() as int).skip(1) =~= lower.skip(k + 1));
    }
}

/// Where the longest match is known, it decides.
proof fn lemma_decides(rules: Seq<RuleModel>, lower: Seq<char>, i: int)
    requires
        policy::is_longest_match(rules, lower, i),
    ensures
        policy::rule_decision(rules, lower) == Some(rules[i].decision),
{
    let j = choose|j: int| policy::is_longest_match(rules, lower, j);
    assert(policy::is_longest_match(rules, lower, j));
    assert(host::covers(rules[i].pattern, lower));
    assert(host::covers(rules[j].pattern, lower));
    assert(i == j);
}

/// Where some rule covers a host, one of them is the longest match among the
/// first `n`.
proof fn lemma_longest_match_exists(rules: Seq<RuleModel>, lower: Seq<char>, n: int)
    requires
        0 <= n <= rules.len(),
        exists|j: int| 0 <= j < n && host::covers((#[trigger] rules[j]).pattern, lower),
    ensures
        exists|i: int| policy::is_longest_match(rules.take(n), lower, i),
    decreases n,
{
    let front = rules.take(n);
    let shorter = rules.take(n - 1);
    assert(forall|j: int| 0 <= j < n ==> front[j] == #[trigger] rules[j]);
    assert(forall|j: int| 0 <= j < n - 1 ==> shorter[j] == #[trigger] rules[j]);
    if exists|j: int| 0 <= j < n - 1 && host::covers((#[trigger] rules[j]).pattern, lower) {
        lemma_longest_match_exists(rules, lower, n - 1);
        let i = choose|i: int| policy::is_longest_match(shorter, lower, i);
        assert(policy::is_longest_match(shorter, lower, i));
        let last = rules[n - 1];
        if host::covers(last.pattern, lower) && last.pattern.len() > rules[i].pattern.len() {
            assert(policy::is_longest_match(front, lower, n - 1));
        } else {
            assert(policy::is_longest_match(front, lower, i));
        }
    } else {
        assert(policy::is_longest_match(front, lower, n - 1));
    }
}

/// The suffix rules decide about exactly the hosts that one of them covers.
pub proof fn law_rules_decide_what_they_cover(rules: Seq<RuleModel>, lower: Seq<char>)
    ensures
        policy::rule_decision(rules, lower) is Some <==> exists|j: int|
            0 <= j < rules.len() && host::covers((#[trigger] rules[j]).pattern, lower),
{
    if exists|j: int| 0 <= j < rules.len() && host::covers((#[trigger] rules[j]).pattern, lower) {
        lemma_longest_match_exists(rules, lower, rules.len() as int);
        assert(rules.take(rules.len() as int) =~= rules);
    }
    if policy::rule_decision(rules, lower) is Some {
        let i = choose|i: int| policy::is_longest_match(rules, lower, i);
        assert(host::covers(rules[i].pattern, lower));
    }
}

/// A decision for a suffix decides about every host below it that neither a
/// decision for the host itself nor a rule with a longer suffix decides about.
pub proof fn law_suffix_decides_below(
    p: PolicyModel,
    suffix: Seq<char>,
    decision: PermanentDecision,
    host: Seq<char>,
)
    requires
        text::normalized(suffix).len() > 0,
        host::covers(
            text::strip_start(text::normalized(suffix), '.'),
            text::lowercase(host),
        ),
        !p.exact.dom().contains(text::lowercase(host)),
        forall|j: int|
            0 <= j < p.rules.len() && host::covers(
                (#[trigger] p.rules[j]).pattern,
                text::lowercase(host),
            ) ==> p.rules[j].pattern.len() <= text::strip_start(text::normalized(suffix), '.').len(),
    ensures
        p.recorded(suffix, DecisionScope::Suffix, decision).stored(host) == Some(decision),
{
    let lower = text::lowercase(host);
    let pattern = text::strip_start(text::normalized(suffix), '.');
    let rules = p.rules;
    let after = policy::with_rule(rules, pattern, decision);
    let rule = RuleModel { pattern, decision };
    assert forall|j: int| 0 <= j < rules.len() && host::covers(
        (#[trigger] rules[j]).pattern,
        lower,
    ) && rules[j].pattern.len() == pattern.len() implies rules[j].pattern == pattern by {
        lemma_same_length_patterns(rules[j].pattern, pattern, lower);
    }
    if exists|i: int| policy::is_first_rule(rules, pattern, i) {
        let i = choose|i: int| policy::is_first_rule(rules, pattern, i);
        assert(policy::is_first_rule(rules, pattern, i));
        assert(after == rules.update(i, rule));
        assert(forall|j: int| 0 <= j < rules.len() && j != i ==> after[j] == #[trigger] rules[j]);
        assert(policy::is_longest_match(after, lower, i));
        lemma_decides(after, lower, i);
    } else {
        let n = rules.len() as int;
        assert forall|j: int| 0 <= j < n implies (#[trigger] rules[j]).pattern != pattern by {
            if rules[j].pattern == pattern {
                lemma_first_rule_exists(rules, pattern, j);
            }
        }
        assert(forall|j: int| 0 <= j < n ==> after[j] == #[trigger] rules[j]);
        assert(policy::is_longest_match(after, lower, n));
        lemma_decides(after, lower, n);
    }
}

/// Where a rule has a pattern, there is a first rule with it.
proof fn lemma_first_rule_exists(rules: Seq<RuleModel>, pattern: Seq<char>, j: int)
    requires
        0 <= j < rules.len(),
        rules[j].pattern == pattern,
    ensures
        exists|i: int| policy::is_first_rule(rules, pattern, i),
    decreases j,
{
    if exists|k: int| 0 <= k < j && (#[trigger] rules[k]).pattern == pattern {
        let k = choose|k: int| 0 <= k < j && (#[trigger] rules[k]).pattern == pattern;
        lemma_first_rule_exists(rules, pattern, k);
    } else {
        assert(policy::is_first_rule(rules, pattern, j));
    }
}

/// A decision for a suffix changes nothing for a host that the suffix does not
/// cover.
pub proof fn law_suffix_is_local(
    p: PolicyModel,
    suffix: Seq<char>,
    decision: PermanentDecision,
    host: Seq<char>,
)
    requires
        !host::covers(text::strip_start(text::normalized(suffix), '.'), text::lowercase(host)),
    ensures
        p.recorded(suffix, DecisionScope::Suffix, decision).stored(host) == p.stored(host),
{
    let lower = text::lowercase(host);
    let pattern = text::strip_start(text::normalized(suffix), '.');
    let rules = p.rules;
    if text::normalized(suffix).len() > 0 {
        let after = policy::with_rule(rules, pattern, decision);
        if exists|i: int| policy::is_first_rule(rules, pattern, i) {
            let i = choose|i: int| policy::is_first_rule(rules, pattern, i);
            assert(policy::is_first_rule(rules, pattern, i));
        }
        lemma_same_covering_rules(rules, after, lower);
    }
}

/// Where two lists of rules have the same covering rules at the same places,
/// they decide the same.
proof fn lemma_same_covering_rules(a: Seq<RuleModel>, b: Seq<RuleModel>, lower: Seq<char>)
    requires
        a.len() <= b.len(),
        forall|j: int|
            0 <= j < a.len() ==> (#[trigger] a[j]) == b[j] || (!host::covers(a[j].pattern, lower)
                && !host::covers(b[j].pattern, lower)),
        forall|j: int| a.len() <= j < b.len() ==> !host::covers((#[trigger] b[j]).pattern, lower),
    ensures
        policy::rule_decision(a, lower) == policy::rule_decision(b, lower),
{
    if exists|i: int| policy::is_longest_match(a, lower, i) {
        let i = choose|i: int| policy::is_longest_match(a, lower, i);
        assert(policy::is_longest_match(a, lower, i));
        assert(a[i] == b[i]);
        assert forall|j: int|
            0 <= j < b.len() && host::covers((#[trigger] b[j]).pattern, lower) implies b[j].pattern.len()
            < b[i].pattern.len() || (b[j].pattern.len() == b[i].pattern.len() && i <= j) by {
            assert(a[j] == b[j]);
        }
        assert(policy::is_longest_match(b, lower, i));
        lemma_decides(b, lower, i);
    } else if exists|i: int| policy::is_longest_match(b, lower, i) {
        let i = choose|i: int| policy::is_longest_match(b, lower, i);
        assert(policy::is_longest_match(b, lower, i));
        assert(a[i] == b[i]);
        assert forall|j: int|
            0 <= j < a.len() && host::covers((#[trigger] a[j]).pattern, lower) implies a[j].pattern.len()
            < a[i].pattern.len() || (a[j].pattern.len() == a[i].pattern.len() && i <= j) by {
            assert(a[j] == b[j]);
        }
        assert(policy::is_longest_match(a, lower, i));
    }
}

/// A permanent decision about the suffix suggested for a host is stored, and
/// decides about every host that lies below that suffix and that nothing was
/// stored for.
pub proof fn law_permanent_suffix_decides_below(
    p: PolicyModel,
    host: Seq<char>,
    other: Seq<char>,
    decision: PromptDecision,
    stored: PermanentDecision,
)
    requires
        decision.stores() == Some((DecisionScope::Suffix, stored)),
        PolicyModel::saves(host, decision),
        p.stored(other) is None,
        host::covers(
            text::strip_start(text::normalized(host::suffix_hint(host)), '.'),
            text::lowercase(other),
        ),
    ensures
        p.answered(host, decision).stored(other) == Some(stored),
{
    law_rules_decide_what_they_cover(p.rules, text::lowercase(other));
    law_suffix_decides_below(p, host::suffix_hint(host), stored, other);
}

/// A permanent decision about the suffix of a host name is found again for the
/// host itself, and for every other host below the suffix that nothing was
/// stored for. It holds of every suffix that normalizing leaves as it is.
pub proof fn law_permanent_suffix_is_reused(
    p: PolicyModel,
    host: Seq<char>,
    other: Seq<char>,
    decision: PromptDecision,
    stored: PermanentDecision,
)
    requires
        decision.stores() == Some((DecisionScope::Suffix, stored)),
        host_laws::is_host_name(host),
        text::normalized(host::suffix_hint(host)) == host::suffix_hint(host),
        p.stored(host) is None,
        p.stored(other) is None,
        host::covers(host::suffix_hint(host), text::lowercase(other)),
    ensures
        PolicyModel::saves(host, decision),
        p.answered(host, decision).stored(host) == Some(stored),
        p.answered(host, decision).stored(other) == Some(stored),
{
    host_laws::law_suffix_hint_covers_host(host);
    law_permanent_suffix_decides_below(p, host, host, decision, stored);
    law_permanent_suffix_decides_below(p, host, other, decision, stored);
}

/// A permanent decision about the suffix of an ordinary host name is found again
/// for the host itself.
pub proof fn law_permanent_suffix_of_plain_host_is_reused(
    p: PolicyModel,
    host: Seq<char>,
    decision: PromptDecision,
    stored: PermanentDecision,
)
    requires
        decision.stores() == Some((DecisionScope::Suffix, stored)),
        host_laws::is_plain_host(host),
        p.stored(host) is None,
    ensures
        PolicyModel::saves(host, decision),
        p.answered(host, decision).stored(host) == Some(stored),
{
    host_laws::law_plain_suffix_hint_is_normalized(host);
    host_laws::law_suffix_hint_covers_host(host);
    law_permanent_suffix_is_reused(p, host, host, decision, stored);
}

// ---------------------------------------------------------------------------
// Saving and loading
// ---------------------------------------------------------------------------

/// A key that loading leaves as it is.
pub open spec fn is_stable_key(key: Seq<char>) -> bool {
    key.len() > 0 && text::normalized(key) == key
}

/// A pattern that loading leaves as it is.
pub open spec fn is_stable_pattern(pattern: Seq<char>) -> bool {
    pattern.len() > 0 && text::strip_start(text::normalized(pattern), '.') == pattern
}

/// A policy all of whose keys and patterns loading leaves as they are.
pub open spec fn is_stable(p: PolicyModel) -> bool {
    &&& forall|key: Seq<char>| #[trigger] p.exact.dom().contains(key) ==> is_stable_key(key)
    &&& forall|j: int| 0 <= j < p.rules.len() ==> is_stable_pattern((#[trigger] p.rules[j]).pattern)
}

/// The policy that a file with the given entries loads as.
pub open spec fn loaded(entries: Seq<EntryModel>) -> PolicyModel {
    PolicyModel {
        exact: learned::loaded_exact(entries),
        rules: learned::loaded_suffix(entries),
        pending: Map::empty(),
    }
}

/// The last decision for a host itself among entries.
spec fn last_exact(entries: Seq<EntryModel>) -> Option<PermanentDecision>
    decreases entries.len(),
{
    if entries.len() == 0 {
        None
    } else if entries.last().scope is Host {
        Some(entries.last().decision)
    } else {
        last_exact(entries.drop_last())
    }
}

/// Loading finds for a host the last decision among the entries about it.
proof fn lemma_loaded_exact(entries: Seq<EntryModel>, host: Seq<char>)
    requires
        forall|i: int|
            0 <= i < entries.len() && (#[trigger] entries[i]).scope is Host ==> is_stable_key(
                entries[i].host,
            ),
    ensures
        last_exact(learned::entries_about(entries, host)) == (if learned::loaded_exact(
            entries,
        ).dom().contains(host) {
            Some(learned::loaded_exact(entries)[host])
        } else {
            None
        }),
    decreases entries.len(),
{
    reveal(Seq::filter);
    if entries.len() > 0 {
        let front = entries.drop_last();
        let e = entries.last();
        assert forall|i: int| 0 <= i < front.len() && (#[trigger] front[i]).scope is Host implies is_stable_key(
            front[i].host,
        ) by {
            assert(front[i] == entries[i]);
        }
        assert(e == entries[entries.len() - 1]);
        lemma_loaded_exact(front, host);
        if e.host == host {
            let about = learned::entries_about(entries, host);
            assert(about == learned::entries_about(front, host).push(e));
            assert(about.drop_last() =~= learned::entries_about(front, host));
        }
    }
}

/// Entries for suffixes behind the others hold no decision for a host itself.
proof fn lemma_last_exact_before_suffixes(a: Seq<EntryModel>, b: Seq<EntryModel>)
    requires
        forall|i: int| 0 <= i < b.len() ==> (#[trigger] b[i]).scope is Suffix,
    ensures
        last_exact(a + b) == last_exact(a),
    decreases b.len(),
{
    if b.len() == 0 {
        assert(a + b =~= a);
    } else {
        let front = b.drop_last();
        assert forall|i: int| 0 <= i < front.len() implies (#[trigger] front[i]).scope is Suffix by {
            assert(front[i] == b[i]);
        }
        lemma_last_exact_before_suffixes(a, front);
        assert((a + b).last() == b[b.len() - 1]);
        assert((a + b).drop_last() =~= a + front);
    }
}

/// Whether a rule has a pattern.
spec fn with_pattern(pattern: Seq<char>) -> spec_fn(RuleModel) -> bool {
    |r: RuleModel| r.pattern == pattern
}

/// The rules with one pattern, in their order.
spec fn rules_with(rules: Seq<RuleModel>, pattern: Seq<char>) -> Seq<RuleModel> {
    rules.filter(with_pattern(pattern))
}

/// The suffix rules among entries about one host, in their order.
spec fn suffix_rules(entries: Seq<EntryModel>) -> Seq<RuleModel>
    decreases entries.len(),
{
    if entries.len() == 0 {
        Seq::empty()
    } else {
        let before = suffix_rules(entries.drop_last());
        let e = entries.last();
        if e.scope is Suffix {
            before.push(RuleModel { pattern: e.host, decision: e.decision })
        } else {
            before
        }
    }
}

/// Loading finds the suffix rules for a pattern among the entries about it.
proof fn lemma_loaded_suffix(entries: Seq<EntryModel>, pattern: Seq<char>)
    requires
        forall|i: int|
            0 <= i < entries.len() && (#[trigger] entries[i]).scope is Suffix ==> is_stable_pattern(
                entries[i].host,
            ),
    ensures
        rules_with(learned::loaded_suffix(entries), pattern) == suffix_rules(
            learned::entries_about(entries, pattern),
        ),
    decreases entries.len(),
{
    reveal(Seq::filter);
    if entries.len() > 0 {
        let front = entries.drop_last();
        let e = entries.last();
        assert forall|i: int| 0 <= i < front.len() && (#[trigger] front[i]).scope is Suffix implies is_stable_pattern(
            front[i].host,
        ) by {
            assert(front[i] == entries[i]);
        }
        assert(e == entries[entries.len() - 1]);
        lemma_loaded_suffix(front, pattern);
        if e.scope is Suffix {
            let rule = RuleModel { pattern: e.host, decision: e.decision };
            assert(learned::loaded_suffix(entries) == learned::loaded_suffix(front).push(rule));
            learned::loaded_suffix(front).lemma_filter_push(rule, with_pattern(pattern));
        }
        if e.host == pattern {
            let about = learned::entries_about(entries, pattern);
            assert(about == learned::entries_about(front, pattern).push(e));
            assert(about.drop_last() =~= learned::entries_about(front, pattern));
        }
    }
}

/// The entries that record suffix rules hold those rules.
proof fn lemma_recorded_suffix(rules: Seq<RuleModel>, pattern: Seq<char>)
    ensures
        suffix_rules(learned::entries_about(learned::suffix_entries(rules), pattern))
            == rules_with(rules, pattern),
        forall|i: int|
            0 <= i < learned::entries_about(learned::suffix_entries(rules), pattern).len() ==> (
            #[trigger] learned::entries_about(learned::suffix_entries(rules), pattern)[i]).scope is Suffix,
    decreases rules.len(),
{
    reveal(Seq::filter);
    let entries = learned::suffix_entries(rules);
    if rules.len() > 0 {
        let front = rules.drop_last();
        let e = learned::suffix_entry(rules.last());
        lemma_recorded_suffix(front, pattern);
        assert(entries.drop_last() =~= learned::suffix_entries(front));
        assert(entries.last() == e);
        let about = learned::entries_about(entries, pattern);
        if e.host == pattern {
            assert(about == learned::entries_about(learned::suffix_entries(front), pattern).push(e));
            assert(about.drop_last() =~= learned::entries_about(
                learned::suffix_entries(front),
                pattern,
            ));
            assert(RuleModel { pattern: e.host, decision: e.decision } == rules.last());
        }
    }
}

/// Entries of one host before those for the suffix add no suffix rules.
proof fn lemma_suffix_rules_after_exact(a: Seq<EntryModel>, b: Seq<EntryModel>)
    requires
        forall|i: int| 0 <= i < a.len() ==> (#[trigger] a[i]).scope is Host,
    ensures
        suffix_rules(a + b) == suffix_rules(b),
    decreases a.len() + b.len(),
{
    if b.len() > 0 {
        lemma_suffix_rules_after_exact(a, b.drop_last());
        assert((a + b).drop_last() =~= a + b.drop_last());
        assert((a + b).last() == b.last());
    } else if a.len() > 0 {
        let front = a.drop_last();
        assert forall|i: int| 0 <= i < front.len() implies (#[trigger] front[i]).scope is Host by {
            assert(front[i] == a[i]);
        }
        lemma_suffix_rules_after_exact(front, b);
        assert((a + b).drop_last() =~= front + b);
        assert((a + b).last() == a[a.len() - 1]);
    } else {
        assert(a + b =~= b);
    }
}

/// The first rule with a pattern comes first among those with it.
proof fn lemma_first_of_pattern(rules: Seq<RuleModel>, pattern: Seq<char>, i: int)
    requires
        policy::is_first_rule(rules, pattern, i),
    ensures
        rules_with(rules, pattern).len() > 0,
        rules_with(rules, pattern)[0] == rules[i],
{
    let p = with_pattern(pattern);
    let front = rules.take(i);
    let one = seq![rules[i]];
    let back = rules.skip(i + 1);
    assert(rules =~= front + one + back);
    Seq::filter_distributes_over_add(front + one, back, p);
    Seq::filter_distributes_over_add(front, one, p);
    assert(front.filter(p).len() == 0) by {
        front.lemma_all_neg_filter_empty(p);
    }
    assert(one.filter(p) =~= one) by {
        reveal_with_fuel(Seq::filter, 2);
        assert(one.drop_last() =~= Seq::<RuleModel>::empty());
    }
}

/// A pattern that some rule has is found among the rules with it, and the other
/// way round.
proof fn lemma_pattern_present(rules: Seq<RuleModel>, pattern: Seq<char>)
    ensures
        rules_with(rules, pattern).len() > 0 <==> exists|j: int|
            0 <= j < rules.len() && (#[trigger] rules[j]).pattern == pattern,
{
    let p = with_pattern(pattern);
    if exists|j: int| 0 <= j < rules.len() && (#[trigger] rules[j]).pattern == pattern {
        let j = choose|j: int| 0 <= j < rules.len() && (#[trigger] rules[j]).pattern == pattern;
        lemma_first_rule_exists(rules, pattern, j);
        let i = choose|i: int| policy::is_first_rule(rules, pattern, i);
        lemma_first_of_pattern(rules, pattern, i);
    } else {
        rules.lemma_all_neg_filter_empty(p);
    }
}

/// Where two lists hold the same rules for every pattern, the longest match of
/// one has its like in the other.
proof fn lemma_same_rules_one_way(
    a: Seq<RuleModel>,
    b: Seq<RuleModel>,
    lower: Seq<char>,
    i: int,
)
    requires
        forall|q: Seq<char>| #[trigger] rules_with(a, q) == rules_with(b, q),
        policy::is_longest_match(a, lower, i),
    ensures
        policy::rule_decision(b, lower) == Some(a[i].decision),
{
    let pattern = a[i].pattern;
    assert(policy::is_first_rule(a, pattern, i)) by {
        assert forall|j: int| 0 <= j < i implies (#[trigger] a[j]).pattern != pattern by {
            if a[j].pattern == pattern {
                assert(host::covers(a[j].pattern, lower));
            }
        }
    }
    lemma_first_of_pattern(a, pattern, i);
    assert(rules_with(a, pattern) == rules_with(b, pattern));
    lemma_pattern_present(b, pattern);
    let j = choose|j: int| 0 <= j < b.len() && (#[trigger] b[j]).pattern == pattern;
    lemma_first_rule_exists(b, pattern, j);
    let k = choose|k: int| policy::is_first_rule(b, pattern, k);
    assert(policy::is_first_rule(b, pattern, k));
    lemma_first_of_pattern(b, pattern, k);
    assert forall|m: int|
        0 <= m < b.len() && host::covers((#[trigger] b[m]).pattern, lower) implies b[m].pattern.len()
        < b[k].pattern.len() || (b[m].pattern.len() == b[k].pattern.len() && k <= m) by {
        let q = b[m].pattern;
        lemma_pattern_present(b, q);
        assert(rules_with(a, q) == rules_with(b, q));
        lemma_pattern_present(a, q);
        let n = choose|n: int| 0 <= n < a.len() && (#[trigger] a[n]).pattern == q;
        assert(host::covers(a[n].pattern, lower));
        if q.len() == pattern.len() {
            lemma_same_length_patterns(q, pattern, lower);
        }
    }
    assert(policy::is_longest_match(b, lower, k));
    lemma_decides(b, lower, k);
}

/// Where two lists hold the same rules for every pattern, they decide the same.
proof fn lemma_same_rules(a: Seq<RuleModel>, b: Seq<RuleModel>, lower: Seq<char>)
    requires
        forall|q: Seq<char>| #[trigger] rules_with(a, q) == rules_with(b, q),
    ensures
        policy::rule_decision(a, lower) == policy::rule_decision(b, lower),
{
    if exists|i: int| policy::is_longest_match(a, lower, i) {
        let i = choose|i: int| policy::is_longest_match(a, lower, i);
        lemma_same_rules_one_way(a, b, lower, i);
        lemma_decides(a, lower, i);
    } else if exists|i: int| policy::is_longest_match(b, lower, i) {
        let i = choose|i: int| policy::is_longest_match(b, lower, i);
        assert forall|q: Seq<char>| #[trigger] rules_with(b, q) == rules_with(a, q) by {
            assert(rules_with(a, q) == rules_with(b, q));
        }
        lemma_same_rules_one_way(b, a, lower, i);
    }
}

/// Decisions survive a reload: the file that records a policy loads as a policy
/// with the same decisions for single hosts, and the same decision for every
/// host. It holds of every policy whose keys loading leaves as they are, and
/// loading gives such a policy again.
pub proof fn law_decisions_survive_reload(
    p: PolicyModel,
    entries: Seq<EntryModel>,
    host: Seq<char>,
)
    requires
        is_stable(p),
        learned::records(entries, p.exact, p.rules),
    ensures
        loaded(entries).exact == p.exact,
        loaded(entries).stored(host) == p.stored(host),
        is_stable(loaded(entries)),
{
    assert forall|i: int| 0 <= i < entries.len() implies {
        &&& (#[trigger] entries[i]).scope is Host ==> is_stable_key(entries[i].host)
        &&& entries[i].scope is Suffix ==> is_stable_pattern(entries[i].host)
    } by {
        let e = entries[i];
        let about = learned::entries_about(entries, e.host);
        let exact = learned::exact_entries(p.exact, e.host);
        let rest = learned::entries_about(learned::suffix_entries(p.rules), e.host);
        entries.lemma_filter_contains(learned::about(e.host), i);
        assert(about.contains(e));
        let k = choose|k: int| 0 <= k < about.len() && about[k] == e;
        assert(about == exact + rest);
        if k < exact.len() {
            assert(exact[k] == e);
        } else {
            assert(rest[k - exact.len()] == e);
            lemma_recorded_suffix(p.rules, e.host);
            let all = learned::suffix_entries(p.rules);
            assert(all.filter(learned::about(e.host)).contains(e));
            all.lemma_filter_contains_rev(learned::about(e.host), e);
            let m = choose|m: int| 0 <= m < all.len() && all[m] == e;
            assert(e == learned::suffix_entry(p.rules[m]));
        }
    }
    assert forall|h: Seq<char>| {
        &&& #[trigger] learned::loaded_exact(entries).dom().contains(h) == p.exact.dom().contains(h)
        &&& p.exact.dom().contains(h) ==> learned::loaded_exact(entries)[h] == p.exact[h]
    } by {
        let exact = learned::exact_entries(p.exact, h);
        let rest = learned::entries_about(learned::suffix_entries(p.rules), h);
        lemma_loaded_exact(entries, h);
        lemma_recorded_suffix(p.rules, h);
        lemma_last_exact_before_suffixes(exact, rest);
        assert(learned::entries_about(entries, h) == exact + rest);
        if exact.len() > 0 {
            assert(exact.last() == exact[0]);
        }
    }
    assert(learned::loaded_exact(entries) =~= p.exact);
    let rules = learned::loaded_suffix(entries);
    assert forall|q: Seq<char>| #[trigger] rules_with(rules, q) == rules_with(p.rules, q) by {
        let exact = learned::exact_entries(p.exact, q);
        let rest = learned::entries_about(learned::suffix_entries(p.rules), q);
        lemma_loaded_suffix(entries, q);
        lemma_recorded_suffix(p.rules, q);
        lemma_suffix_rules_after_exact(exact, rest);
        assert(learned::entries_about(entries, q) == exact + rest);
    }
    lemma_same_rules(rules, p.rules, text::lowercase(host));
    assert forall|j: int| 0 <= j < rules.len() implies is_stable_pattern(
        (#[trigger] rules[j]).pattern,
    ) by {
        let q = rules[j].pattern;
        lemma_pattern_present(rules, q);
        assert(rules_with(rules, q) == rules_with(p.rules, q));
        lemma_pattern_present(p.rules, q);
        let n = choose|n: int| 0 <= n < p.rules.len() && (#[trigger] p.rules[n]).pattern == q;
        assert(is_stable_pattern(p.rules[n].pattern));
    }
}

/// Whether what is recorded for a host or suffix is something that loading
/// leaves as it is. For a blank one nothing is recorded.
pub open spec fn is_stable_target(host: Seq<char>, scope: DecisionScope) -> bool {
    let key = text::normalized(host);
    key.len() > 0 ==> match scope {
        DecisionScope::Host => is_stable_key(key),
        DecisionScope::Suffix => is_stable_pattern(text::strip_start(key, '.')),
    }
}

/// Recording a decision leaves a policy one that loading leaves as it is, for
/// every host or suffix that normalizing again leaves as it is.
pub proof fn law_recording_keeps_stable(
    p: PolicyModel,
    host: Seq<char>,
    scope: DecisionScope,
    decision: PermanentDecision,
)
    requires
        is_stable(p),
        is_stable_target(host, scope),
    ensures
        is_stable(p.recorded(host, scope, decision)),
{
    let key = text::normalized(host);
    let pattern = text::strip_start(key, '.');
    let after = p.recorded(host, scope, decision);
    if key.len() > 0 && scope is Suffix {
        if exists|i: int| policy::is_first_rule(p.rules, pattern, i) {
            let i = choose|i: int| policy::is_first_rule(p.rules, pattern, i);
            assert(policy::is_first_rule(p.rules, pattern, i));
            assert forall|j: int| 0 <= j < after.rules.len() implies is_stable_pattern(
                (#[trigger] after.rules[j]).pattern,
            ) by {
                if j != i {
                    assert(after.rules[j] == p.rules[j]);
                }
            }
        } else {
            assert forall|j: int| 0 <= j < after.rules.len() implies is_stable_pattern(
                (#[trigger] after.rules[j]).pattern,
            ) by {
                if j < p.rules.len() {
                    assert(after.rules[j] == p.rules[j]);
                }
            }
        }
    }
}

/// Whether an entry of a file stands for nothing, or for something that loading
/// leaves as it is.
pub open spec fn is_stable_entry(e: EntryModel) -> bool {
    let key = text::normalized(e.host);
    let pattern = text::strip_start(key, '.');
    &&& e.scope is Host && key.len() > 0 ==> is_stable_key(key)
    &&& e.scope is Suffix && pattern.len() > 0 ==> is_stable_pattern(pattern)
}

/// A file of entries that normalizing again leaves as they are loads as a policy
/// that loading leaves as it is.
pub proof fn law_loaded_policy_is_stable(entries: Seq<EntryModel>)
    requires
        forall|i: int| 0 <= i < entries.len() ==> is_stable_entry(#[trigger] entries[i]),
    ensures
        is_stable(loaded(entries)),
    decreases entries.len(),
{
    if entries.len() > 0 {
        let front = entries.drop_last();
        assert forall|i: int| 0 <= i < front.len() implies is_stable_entry(#[trigger] front[i]) by {
            assert(front[i] == entries[i]);
        }
        law_loaded_policy_is_stable(front);
        let e = entries.last();
        assert(e == entries[entries.len() - 1]);
        let before = loaded(front);
        let after = loaded(entries);
        let key = text::normalized(e.host);
        assert forall|k: Seq<char>| #[trigger] after.exact.dom().contains(k) implies is_stable_key(
            k,
        ) by {
            if k != key || !(e.scope is Host && key.len() > 0) {
                assert(before.exact.dom().contains(k));
            }
        }
        assert forall|j: int| 0 <= j < after.rules.len() implies is_stable_pattern(
            (#[trigger] after.rules[j]).pattern,
        ) by {
            if j < before.rules.len() {
                assert(after.rules[j] == before.rules[j]);
            }
        }
    } else {
        assert(loaded(entries).exact =~= Map::<Seq<char>, PermanentDecision>::empty());
    }
}

/// An answer at a prompt survives a reload: the file saved after it loads as a
/// policy with the same decision for every host. It holds of every answer that
/// stores nothing, or something that normalizing again leaves as it is.
pub proof fn law_answers_survive_reload(
    p: PolicyModel,
    host: Seq<char>,
    decision: PromptDecision,
    entries: Seq<EntryModel>,
    other: Seq<char>,
)
    requires
        is_stable(p),
        decision.stores() matches Some((scope, _)) ==> is_stable_target(
            PolicyModel::target(host, scope),
            scope,
        ),
        learned::records(
            entries,
            p.answered(host, decision).exact,
            p.answered(host, decision).rules,
        ),
    ensures
        is_stable(p.answered(host, decision)),
        loaded(entries).stored(other) == p.answered(host, decision).stored(other),
        is_stable(loaded(entries)),
{
    match decision.stores() {
        Some((scope, stored)) => {
            law_recording_keeps_stable(p, PolicyModel::target(host, scope), scope, stored);
        },
        None => {},
    }
    law_decisions_survive_reload(p.answered(host, decision), entries, other);
}

/// Whether a suffix is neither empty nor begins with white space once its
/// leading dots are gone.
pub open spec fn has_clean_pattern(suffix: Seq<char>) -> bool {
    let pattern = text::strip_start(text::normalized(suffix), '.');
    pattern.len() > 0 && !text::white_space(pattern.first())
}

/// Normalizing again leaves every ASCII host as it is, and every clean ASCII
/// suffix.
pub proof fn law_ascii_target_is_stable(host: Seq<char>, scope: DecisionScope)
    requires
        text_laws::is_ascii(host),
        scope is Suffix && text::normalized(host).len() > 0 ==> has_clean_pattern(host),
    ensures
        is_stable_target(host, scope),
{
    let key = text::normalized(host);
    text_laws::law_normalizing_is_idempotent(host);
    if key.len() > 0 && scope is Suffix {
        let pattern = text::strip_start(key, '.');
        text_laws::lemma_strip_start_part(key, '.');
        text_laws::lemma_strip_start_again(key, '.');
        let k = choose|k: int| 0 <= k <= key.len() && pattern == #[trigger] key.skip(k);
        assert(pattern =~= key.subrange(k, key.len() as int));
        text_laws::lemma_ascii_part(key, k, key.len() as int);
        text_laws::law_trimming_is_idempotent(pattern);
        text_laws::lemma_normalized_ascii(host);
        text_laws::lemma_lowercase_ascii(key);
        text_laws::lemma_lowercase_ascii(pattern);
        assert forall|i: int| 0 <= i < pattern.len() implies text::lowercase(pattern)[i]
            == pattern[i] by {
            assert(pattern[i] == key[k + i]);
            assert(text::lowercase(key)[k + i] == text::ascii_lower_char(key[k + i]));
        }
        assert(text::lowercase(pattern) =~= pattern);
    }
}

/// What an answer at the prompt for an ASCII host stores, normalizing again
/// leaves as it is; for the suffix of the host where that is a clean one.
pub proof fn law_ascii_answer_is_stable(host: Seq<char>, scope: DecisionScope)
    requires
        text_laws::is_ascii(host),
        scope is Suffix && text::normalized(host::suffix_hint(host)).len() > 0 ==> has_clean_pattern(
            host::suffix_hint(host),
        ),
    ensures
        is_stable_target(PolicyModel::target(host, scope), scope),
{
    host_laws::lemma_suffix_hint_is_ascii(host);
    law_ascii_target_is_stable(PolicyModel::target(host, scope), scope);
}

/// What an answer at the prompt for an ordinary host name stores, normalizing
/// again leaves as it is.
pub proof fn law_plain_answer_is_stable(host: Seq<char>, scope: DecisionScope)
    requires
        host_laws::is_plain_host(host),
    ensures
        is_stable_target(PolicyModel::target(host, scope), scope),
{
    host_laws::law_plain_suffix_hint_is_normalized(host);
    host_laws::law_suffix_hint_covers_host(host);
    assert(!text::white_space(host::suffix_hint(host)[0]));
    law_ascii_answer_is_stable(host, scope);
}

/// A policy that starts from nothing is one that loading leaves as it is.
pub proof fn law_empty_policy_is_stable()
    ensures
        is_stable(loaded(Seq::empty())),
        forall|host: Seq<char>| (#[trigger] loaded(Seq::empty()).stored(host)) is None,
{
    assert forall|host: Seq<char>| (#[trigger] loaded(Seq::empty()).stored(host)) is None by {
        law_rules_decide_what_they_cover(loaded(Seq::empty()).rules, text::lowercase(host));
    }
}

/// The tables determine the file: two lists of entries that record the same
/// tables are the same.
pub proof fn law_file_is_determined(
    a: Seq<EntryModel>,
    b: Seq<EntryModel>,
    exact: Map<Seq<char>, PermanentDecision>,
    rules: Seq<RuleModel>,
)
    requires
        learned::records(a, exact, rules),
        learned::records(b, exact, rules),
    ensures
        a == b,
{
    assert forall|h: Seq<char>| #[trigger]
        learned::entries_about(a, h) == learned::entries_about(b, h) by {
        assert(learned::entries_about(b, h) == learned::exact_entries(exact, h)
            + learned::entries_about(learned::suffix_entries(rules), h));
    }
    lemma_sorted_lists_agree(a, b);
}

/// Two sorted lists with the same entries about every host are the same.
proof fn lemma_sorted_lists_agree(a: Seq<EntryModel>, b: Seq<EntryModel>)
    requires
        learned::sorted_by_host(a),
        learned::sorted_by_host(b),
        forall|h: Seq<char>| #[trigger]
            learned::entries_about(a, h) == learned::entries_about(b, h),
    ensures
        a == b,
    decreases a.len(),
{
    reveal(Seq::filter);
    if a.len() == 0 || b.len() == 0 {
        if a.len() > 0 {
            a.lemma_filter_contains(learned::about(a[0].host), 0);
            assert(learned::entries_about(a, a[0].host) == learned::entries_about(b, a[0].host));
        }
        if b.len() > 0 {
            b.lemma_filter_contains(learned::about(b[0].host), 0);
            assert(learned::entries_about(a, b[0].host) == learned::entries_about(b, b[0].host));
        }
        assert(a =~= b);
    } else {
        let h = a.last().host;
        let g = b.last().host;
        assert(text::text_le(g, h)) by {
            let n = b.len() - 1;
            b.lemma_filter_contains(learned::about(g), n);
            assert(learned::entries_about(a, g) == learned::entries_about(b, g));
            a.lemma_filter_contains_rev(learned::about(g), b[n]);
            let i = choose|i: int| 0 <= i < a.len() && a[i] == b[n];
            if i < a.len() - 1 {
                assert(text::text_le(a[i].host, a[a.len() - 1].host));
            } else {
                text::lemma_text_le_total(g, g);
            }
        }
        assert(text::text_le(h, g)) by {
            let n = a.len() - 1;
            a.lemma_filter_contains(learned::about(h), n);
            assert(learned::entries_about(a, h) == learned::entries_about(b, h));
            b.lemma_filter_contains_rev(learned::about(h), a[n]);
            let i = choose|i: int| 0 <= i < b.len() && b[i] == a[n];
            if i < b.len() - 1 {
                assert(text::text_le(b[i].host, b[b.len() - 1].host));
            } else {
                text::lemma_text_le_total(h, h);
            }
        }
        text::lemma_text_le_antisymmetric(h, g);
        let x = a.drop_last();
        let y = b.drop_last();
        assert(learned::entries_about(a, h) == learned::entries_about(x, h).push(a.last()));
        assert(learned::entries_about(b, h) == learned::entries_about(y, h).push(b.last()));
        assert(learned::entries_about(a, h) == learned::entries_about(b, h));
        assert(a.last() == b.last()) by {
            assert(learned::entries_about(a, h).last() == a.last());
            assert(learned::entries_about(b, h).last() == b.last());
        }
        assert forall|q: Seq<char>| #[trigger]
            learned::entries_about(x, q) == learned::entries_about(y, q) by {
            assert(learned::entries_about(a, q) == learned::entries_about(b, q));
            if q == h {
                assert(learned::entries_about(a, h).drop_last() =~= learned::entries_about(x, h));
                assert(learned::entries_about(b, h).drop_last() =~= learned::entries_about(y, h));
            }
        }
        assert(learned::sorted_by_host(x)) by {
            assert forall|i: int, j: int| 0 <= i < j < x.len() implies text::text_le(
                (#[trigger] x[i]).host,
                (#[trigger] x[j]).host,
            ) by {
                assert(x[i] == a[i] && x[j] == a[j]);
            }
        }
        assert(learned::sorted_by_host(y)) by {
            assert forall|i: int, j: int| 0 <= i < j < y.len() implies text::text_le(
                (#[trigger] y[i]).host,
                (#[trigger] y[j]).host,
            ) by {
                assert(y[i] == b[i] && y[j] == b[j]);
            }
        }
        lemma_sorted_lists_agree(x, y);
        assert(a =~= x.push(a.last()));
        assert(b =~= y.push(b.last()));
    }
}

// ---------------------------------------------------------------------------
// What decides
// ---------------------------------------------------------------------------

/// What the user answers is the decision, whatever the setting for unavailable
/// dialogs.
pub proof fn law_answer_is_the_decision(answer: PromptDecision, on_unavailable: OnUnavailable)
    ensures
        PromptOutcome::Answered(answer).decision(on_unavailable) == answer,
        PromptOutcome::Answered(answer).decision(on_unavailable).allows() <==> answer
            == PromptDecision::AllowOnce || answer == PromptDecision::AllowPermanentHost || answer
            == PromptDecision::AllowPermanentSuffix,
        PromptOutcome::TimedOut.decision(on_unavailable) == PromptDecision::DenyOnce,
        PromptOutcome::Failed.decision(OnUnavailable::Allow) == PromptDecision::AllowOnce,
        PromptOutcome::Failed.decision(OnUnavailable::Deny) == PromptDecision::DenyOnce,
{
}

/// A decision for the host itself comes before every suffix rule, and without
/// one the rules decide.
pub proof fn law_host_decision_comes_first(p: PolicyModel, host: Seq<char>)
    ensures
        p.exact.dom().contains(text::lowercase(host)) ==> p.stored(host) == Some(
            p.exact[text::lowercase(host)],
        ),
        !p.exact.dom().contains(text::lowercase(host)) ==> p.stored(host) == policy::rule_decision(
            p.rules,
            text::lowercase(host),
        ),
{
}

/// Without rules nothing is decided. One more rule decides about a host exactly
/// where it covers the host and every other rule that does is shorter; else
/// things stay as they were.
pub proof fn law_longest_rule_decides(rules: Seq<RuleModel>, rule: RuleModel, lower: Seq<char>)
    ensures
        policy::rule_decision(Seq::empty(), lower) is None,
        ({
            &&& host::covers(rule.pattern, lower)
            &&& forall|j: int|
                0 <= j < rules.len() && host::covers((#[trigger] rules[j]).pattern, lower)
                    ==> rules[j].pattern.len() < rule.pattern.len()
        }) ==> policy::rule_decision(rules.push(rule), lower) == Some(rule.decision),
        !({
            &&& host::covers(rule.pattern, lower)
            &&& forall|j: int|
                0 <= j < rules.len() && host::covers((#[trigger] rules[j]).pattern, lower)
                    ==> rules[j].pattern.len() < rule.pattern.len()
        }) ==> policy::rule_decision(rules.push(rule), lower) == policy::rule_decision(rules, lower),
{
    let after = rules.push(rule);
    let n = rules.len() as int;
    assert(forall|j: int| 0 <= j < n ==> after[j] == #[trigger] rules[j]);
    assert(after[n] == rule);
    if !host::covers(rule.pattern, lower) {
        lemma_same_covering_rules(rules, after, lower);
    } else if forall|j: int|
        0 <= j < rules.len() && host::covers((#[trigger] rules[j]).pattern, lower)
            ==> rules[j].pattern.len() < rule.pattern.len() {
        assert forall|j: int|
            0 <= j < after.len() && host::covers((#[trigger] after[j]).pattern, lower) implies after[j].pattern.len()
            < after[n].pattern.len() || (after[j].pattern.len() == after[n].pattern.len() && n <= j) by {
            if j < n {
                assert(after[j] == rules[j]);
            }
        }
        assert(policy::is_longest_match(after, lower, n));
        lemma_decides(after, lower, n);
    } else {
        lemma_longest_match_exists(rules, lower, n);
        assert(rules.take(n) =~= rules);
        let i = choose|i: int| policy::is_longest_match(rules, lower, i);
        assert(policy::is_longest_match(rules, lower, i));
        assert forall|j: int|
            0 <= j < after.len() && host::covers((#[trigger] after[j]).pattern, lower) implies after[j].pattern.len()
            < after[i].pattern.len() || (after[j].pattern.len() == after[i].pattern.len() && i <= j) by {
            if j < n {
                assert(after[j] == rules[j]);
            }
        }
        assert(policy::is_longest_match(after, lower, i));
        lemma_decides(after, lower, i);
        lemma_decides(rules, lower, i);
    }
}

/// A single rule decides about its pattern and the names that end with it behind
/// a dot, and about no other host.
pub proof fn law_single_rule_decides_behind_a_dot(
    p: PolicyModel,
    rule: RuleModel,
    host: Seq<char>,
)
    requires
        p.rules == seq![rule],
        !p.exact.dom().contains(text::lowercase(host)),
    ensures
        ({
            let lower = text::lowercase(host);
            lower == rule.pattern || {
                &&& lower.len() > rule.pattern.len()
                &&& lower[lower.len() - rule.pattern.len() - 1] == '.'
                &&& lower.skip(lower.len() - rule.pattern.len()) == rule.pattern
            }
        }) ==> p.stored(host) == Some(rule.decision),
        !({
            let lower = text::lowercase(host);
            lower == rule.pattern || {
                &&& lower.len() > rule.pattern.len()
                &&& lower[lower.len() - rule.pattern.len() - 1] == '.'
                &&& lower.skip(lower.len() - rule.pattern.len()) == rule.pattern
            }
        }) ==> p.stored(host) is None,
{
    let lower = text::lowercase(host);
    let none = Seq::<RuleModel>::empty();
    assert(none.push(rule) =~= p.rules);
    law_longest_rule_decides(none, rule, lower);
    host_laws::law_pattern_covers_behind_a_dot(rule.pattern, lower);
    if lower.len() > rule.pattern.len() {
        let n = lower.len() - rule.pattern.len();
        let rest = lower.skip(n);
        if rest == rule.pattern {
            assert forall|i: int| 0 <= i < rule.pattern.len() implies lower[n + i]
                == #[trigger] rule.pattern[i] by {
                assert(rest[i] == rule.pattern[i]);
            }
        }
        if forall|i: int| 0 <= i < rule.pattern.len() ==> lower[n + i] == #[trigger] rule.pattern[i] {
            assert(rest =~= rule.pattern);
        }
    }
}

/// A rule takes the place of the first one with its pattern, or comes behind all
/// others where none has it.
pub proof fn law_rule_replaces_its_like(
    rules: Seq<RuleModel>,
    pattern: Seq<char>,
    decision: PermanentDecision,
    i: int,
)
    ensures
        (forall|j: int| 0 <= j < rules.len() ==> (#[trigger] rules[j]).pattern != pattern)
            ==> policy::with_rule(rules, pattern, decision) == rules.push(
            RuleModel { pattern, decision },
        ),
        0 <= i < rules.len() && rules[i].pattern == pattern && (forall|j: int|
            0 <= j < i ==> (#[trigger] rules[j]).pattern != pattern) ==> policy::with_rule(
            rules,
            pattern,
            decision,
        ) == rules.update(i, RuleModel { pattern, decision }),
{
    if 0 <= i < rules.len() && rules[i].pattern == pattern && (forall|j: int|
        0 <= j < i ==> (#[trigger] rules[j]).pattern != pattern) {
        assert(policy::is_first_rule(rules, pattern, i));
        let k = choose|k: int| policy::is_first_rule(rules, pattern, k);
        assert(policy::is_first_rule(rules, pattern, k));
        assert(rules[k].pattern == pattern);
        assert(k == i);
    }
}

/// What a decision at the prompt for a host does to the tables: once, nothing;
/// for the host, it is the decision for the normalized host; for the suffix, it
/// is the rule for the normalized suggestion without leading dots. A blank host
/// or suggestion changes nothing, and nobody that waits is forgotten.
pub proof fn law_answer_stores_what_it_says(p: PolicyModel, host: Seq<char>, answer: PromptDecision)
    ensures
        ({
            let after = p.answered(host, answer);
            let key = text::normalized(host);
            let suffix = text::normalized(host::suffix_hint(host));
            let pattern = text::strip_start(suffix, '.');
            &&& after.pending == p.pending
            &&& answer == PromptDecision::AllowOnce || answer == PromptDecision::DenyOnce ==> after == p
            &&& answer == PromptDecision::AllowPermanentHost && key.len() > 0 ==> after.exact
                == p.exact.insert(key, PermanentDecision::Allow) && after.rules == p.rules
            &&& answer == PromptDecision::DenyPermanentHost && key.len() > 0 ==> after.exact
                == p.exact.insert(key, PermanentDecision::Deny) && after.rules == p.rules
            &&& answer == PromptDecision::AllowPermanentSuffix && suffix.len() > 0 ==> after.exact
                == p.exact && after.rules == policy::with_rule(
                p.rules,
                pattern,
                PermanentDecision::Allow,
            )
            &&& answer == PromptDecision::DenyPermanentSuffix && suffix.len() > 0 ==> after.exact
                == p.exact && after.rules == policy::with_rule(
                p.rules,
                pattern,
                PermanentDecision::Deny,
            )
            &&& key.len() == 0 && (answer == PromptDecision::AllowPermanentHost || answer
                == PromptDecision::DenyPermanentHost) ==> after == p
            &&& suffix.len() == 0 && (answer == PromptDecision::AllowPermanentSuffix || answer
                == PromptDecision::DenyPermanentSuffix) ==> after == p
        }),
{
}

/// What changes the tables is saved: an answer for a host, or for its suffix,
/// that is not blank. Nothing else is.
pub proof fn law_changes_are_saved(p: PolicyModel, host: Seq<char>, answer: PromptDecision)
    ensures
        p.answered(host, answer) != p ==> PolicyModel::saves(host, answer),
        answer == PromptDecision::AllowPermanentHost || answer == PromptDecision::DenyPermanentHost
            ==> (PolicyModel::saves(host, answer) <==> text::normalized(host).len() > 0),
        answer == PromptDecision::AllowPermanentSuffix || answer
            == PromptDecision::DenyPermanentSuffix ==> (PolicyModel::saves(host, answer)
            <==> text::normalized(host::suffix_hint(host)).len() > 0),
        answer == PromptDecision::AllowOnce || answer == PromptDecision::DenyOnce
            ==> !PolicyModel::saves(host, answer),
{
}

/// Who asks for a host waits behind those that ask for it already, under its
/// lowercased name, and the end of the prompt leaves nobody under that name.
pub proof fn law_queue_of_a_host(p: PolicyModel, host: Seq<char>, ticket: u64, key: Seq<char>)
    ensures
        p.asked(host, ticket).pending.dom().contains(text::lowercase(host)),
        !p.pending.dom().contains(text::lowercase(host)) ==> p.asked(host, ticket).pending[text::lowercase(
            host,
        )] == seq![ticket],
        p.pending.dom().contains(text::lowercase(host)) ==> p.asked(host, ticket).pending[text::lowercase(
            host,
        )] == p.pending[text::lowercase(host)].push(ticket),
        !p.released(host).pending.dom().contains(text::lowercase(host)),
        p.pending.dom().contains(text::lowercase(host)) ==> p.waiting(host)
            == p.pending[text::lowercase(host)],
        !p.pending.dom().contains(text::lowercase(host)) ==> p.waiting(host).len() == 0,
        key != text::lowercase(host) ==> {
            &&& p.asked(host, ticket).pending.dom().contains(key) == p.pending.dom().contains(key)
            &&& p.asked(host, ticket).pending[key] == p.pending[key]
            &&& p.released(host).pending.dom().contains(key) == p.pending.dom().contains(key)
            &&& p.pending.dom().contains(key) ==> p.released(host).pending[key] == p.pending[key]
        },
        p.leads(host) <==> p.stored(host) is None && !p.pending.dom().contains(text::lowercase(host)),
        p.waits(host) <==> p.stored(host) is None && p.pending.dom().contains(text::lowercase(host)),
{
    assert(Seq::<u64>::empty().push(ticket) =~= seq![ticket]);
}

/// What recording a decision does: for a host, it becomes the decision for the
/// normalized host; for a suffix, the rule for the normalized suffix without
/// leading dots; and for a blank text nothing. Nobody that waits is forgotten.
pub proof fn law_recording_by_scope(p: PolicyModel, host: Seq<char>, decision: PermanentDecision)
    ensures
        ({
            let key = text::normalized(host);
            let single = p.recorded(host, DecisionScope::Host, decision);
            let below = p.recorded(host, DecisionScope::Suffix, decision);
            &&& key.len() == 0 ==> single == p && below == p
            &&& key.len() > 0 ==> {
                &&& single.exact == p.exact.insert(key, decision)
                &&& single.rules == p.rules
                &&& single.pending == p.pending
                &&& below.exact == p.exact
                &&& below.rules == policy::with_rule(p.rules, text::strip_start(key, '.'), decision)
                &&& below.pending == p.pending
            }
        }),
        PolicyModel::target(host, DecisionScope::Host) == host,
        PolicyModel::target(host, DecisionScope::Suffix) == host::suffix_hint(host),
{
}

} // verus!
