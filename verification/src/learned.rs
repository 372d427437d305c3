//! The learned-policy file: its entries, their order, and what they stand for.

use crate::decision::{DecisionScope, PermanentDecision};
use crate::table;
use crate::table::{Row, Table};
use crate::text;
use vstd::prelude::*;

verus! {

/// On-disk schema version for the learned policy file.
pub const LEARNED_POLICY_SCHEMA: u32 = 1;

/// A single learned policy entry.
#[derive(Debug)]
pub struct LearnedEntry {
    /// Pattern (lowercased). For `Suffix` scope, stored without leading dot.
    pub host: String,
    pub scope: DecisionScope,
    pub decision: PermanentDecision,
}

/// What a learned entry says.
pub struct EntryModel {
    pub host: Seq<char>,
    pub scope: DecisionScope,
    pub decision: PermanentDecision,
}

impl View for LearnedEntry {
    type V = EntryModel;

    open spec fn view(&self) -> EntryModel {
        EntryModel { host: self.host@, scope: self.scope, decision: self.decision }
    }
}

impl Clone for LearnedEntry {
    fn clone(&self) -> (r: LearnedEntry)
        ensures
            r@ == self@,
    {
        LearnedEntry { host: self.host.clone(), scope: self.scope, decision: self.decision }
    }
}

/// What a list of learned entries says.
pub open spec fn entry_models(entries: Seq<LearnedEntry>) -> Seq<EntryModel> {
    entries.map_values(|e: LearnedEntry| e@)
}

/// The on-disk learned-policy file format.
#[derive(Debug)]
pub struct LearnedPolicyFile {
    pub schema: u32,
    pub entries: Vec<LearnedEntry>,
}

/// The schema of a file that names none.
pub fn default_schema() -> (r: u32)
    ensures
        r == LEARNED_POLICY_SCHEMA,
        r == 1,
{
    LEARNED_POLICY_SCHEMA
}

impl Default for LearnedPolicyFile {
    fn default() -> (r: LearnedPolicyFile)
        ensures
            r.schema == LEARNED_POLICY_SCHEMA,
            r.entries@.len() == 0,
    {
        LearnedPolicyFile { schema: LEARNED_POLICY_SCHEMA, entries: Vec::new() }
    }
}

impl Clone for LearnedPolicyFile {
    fn clone(&self) -> (r: LearnedPolicyFile)
        ensures
            r.schema == self.schema,
            entry_models(r.entries@) == entry_models(self.entries@),
    {
        let mut entries: Vec<LearnedEntry> = Vec::new();
        let mut i: usize = 0;
        while i < self.entries.len()
            invariant
                i <= self.entries@.len(),
                entry_models(entries@) =~= entry_models(self.entries@.take(i as int)),
            decreases self.entries@.len() - i,
        {
            let ghost before = entry_models(entries@);
            entries.push(self.entries[i].clone());
            assert(entry_models(entries@) =~= before.push(self.entries@[i as int]@));
            i += 1;
        }
        assert(self.entries@.take(self.entries@.len() as int) =~= self.entries@);
        LearnedPolicyFile { schema: self.schema, entries }
    }
}

impl LearnedPolicyFile {
    /// Whether the file was written under another schema than this one. Such a
    /// file is loaded all the same.
    #[must_use]
    pub fn has_other_schema(&self) -> (r: bool)
        ensures
            r == (self.schema != LEARNED_POLICY_SCHEMA),
    {
        self.schema != LEARNED_POLICY_SCHEMA
    }
}

/// Whether the learned-policy file holds anything to parse: it exists and is
/// not blank. Where it does not, the default file stands in for it.
#[must_use]
pub fn has_learned_data(data: Option<&str>) -> (r: bool)
    ensures
        r == (data matches Some(d) && text::trimmed(d@).len() > 0),
{
    match data {
        Some(d) => !text::trim(d).as_str().is_empty(),
        None => false,
    }
}

// ---------------------------------------------------------------------------
// Order of entries
// ---------------------------------------------------------------------------

/// Entries in the order of their hosts.
pub open spec fn sorted_by_host(entries: Seq<EntryModel>) -> bool {
    forall|i: int, j: int|
        0 <= i < j < entries.len() ==> text::text_le(
            (#[trigger] entries[i]).host,
            (#[trigger] entries[j]).host,
        )
}

/// Whether an entry is about a host.
pub open spec fn about(host: Seq<char>) -> spec_fn(EntryModel) -> bool {
    |e: EntryModel| e.host == host
}

/// The entries about one host, in their order.
pub open spec fn entries_about(entries: Seq<EntryModel>, host: Seq<char>) -> Seq<EntryModel> {
    entries.filter(about(host))
}

/// An entry that comes after everything about its host can be moved to just
/// before a run of entries about other hosts.
proof fn lemma_entry_moves(front: Seq<EntryModel>, back: Seq<EntryModel>, e: EntryModel, host: Seq<char>)
    requires
        forall|i: int| 0 <= i < back.len() ==> (#[trigger] back[i]).host != e.host,
    ensures
        entries_about(front.push(e) + back, host) == entries_about((front + back).push(e), host),
{
    broadcast use Seq::filter_distributes_over_add;

    let one = seq![e];
    let p = about(host);
    assert(front.push(e) + back =~= front + one + back);
    assert((front + back).push(e) =~= front + back + one);
    assert((front + one + back).filter(p) =~= front.filter(p) + one.filter(p) + back.filter(p));
    assert((front + back + one).filter(p) =~= front.filter(p) + back.filter(p) + one.filter(p));
    if host == e.host {
        lemma_none_about(back, host);
        assert(back.filter(p) =~= Seq::<EntryModel>::empty());
    } else {
        lemma_none_about(one, host);
        assert(one.filter(p) =~= Seq::<EntryModel>::empty());
    }
}

/// Where no entry is about a host, there are no entries about it.
proof fn lemma_none_about(entries: Seq<EntryModel>, host: Seq<char>)
    requires
        forall|i: int| 0 <= i < entries.len() ==> (#[trigger] entries[i]).host != host,
    ensures
        entries_about(entries, host) == Seq::<EntryModel>::empty(),
    decreases entries.len(),
{
    reveal(Seq::filter);
    if entries.len() > 0 {
        assert forall|i: int| 0 <= i < entries.drop_last().len() implies (
        #[trigger] entries.drop_last()[i]).host != host by {
            assert(entries.drop_last()[i] == entries[i]);
        }
        lemma_none_about(entries.drop_last(), host);
        assert(entries.last() == entries[entries.len() - 1]);
    }
}

/// Puts an entry behind every entry that comes no later than it.
fn insert_in_order(entries: &mut Vec<LearnedEntry>, e: LearnedEntry)
    requires
        sorted_by_host(entry_models(old(entries)@)),
    ensures
        sorted_by_host(entry_models(final(entries)@)),
        forall|h: Seq<char>| #[trigger]
            entries_about(entry_models(final(entries)@), h) == entries_about(
                entry_models(old(entries)@).push(e@),
                h,
            ),
{
    let ghost before = entry_models(entries@);
    let ghost m = e@;
    let mut k: usize = entries.len();
    while k > 0 && !text::is_le(entries[k - 1].host.as_str(), e.host.as_str())
        invariant
            k <= entries@.len(),
            before == entry_models(entries@),
            m == e@,
            forall|i: int|
                k <= i < before.len() ==> !text::text_le((#[trigger] before[i]).host, m.host),
        decreases k,
    {
        assert(before[k - 1].host == entries@[k - 1].host@);
        k -= 1;
    }
    proof {
        if k > 0 {
            assert(before[k - 1].host == entries@[k - 1].host@);
        }
    }
    entries.insert(k, e);
    proof {
        let at = k as int;
        let after = entry_models(entries@);
        let front = before.take(at);
        let back = before.skip(at);
        assert(after =~= front.push(m) + back);
        assert(front + back =~= before);
        assert forall|i: int| 0 <= i < back.len() implies (#[trigger] back[i]).host != m.host by {
            assert(back[i] == before[at + i]);
            text::lemma_text_le_total(back[i].host, back[i].host);
        }
        assert forall|h: Seq<char>| #[trigger]
            entries_about(after, h) == entries_about(before.push(m), h) by {
            lemma_entry_moves(front, back, m, h);
        }
        assert forall|i: int, j: int| 0 <= i < j < after.len() implies text::text_le(
            (#[trigger] after[i]).host,
            (#[trigger] after[j]).host,
        ) by {
            if i < at && j == at {
                assert(text::text_le(before[at - 1].host, m.host));
                if i < at - 1 {
                    assert(text::text_le(before[i].host, before[at - 1].host));
                    text::lemma_text_le_transitive(before[i].host, before[at - 1].host, m.host);
                }
            } else if i == at {
                assert(after[j] == before[j - 1]);
                text::lemma_text_le_total(before[j - 1].host, m.host);
            } else if i < at && j > at {
                assert(after[i] == before[i]);
                assert(after[j] == before[j - 1]);
            } else if i > at {
                assert(after[i] == before[i - 1]);
                assert(after[j] == before[j - 1]);
            } else {
                assert(after[i] == before[i]);
                assert(after[j] == before[j]);
            }
        }
    }
}

/// Sorts entries by host; entries about the same host keep their order.
pub fn sort_entries(entries: Vec<LearnedEntry>) -> (r: Vec<LearnedEntry>)
    ensures
        sorted_by_host(entry_models(r@)),
        forall|h: Seq<char>| #[trigger]
            entries_about(entry_models(r@), h) == entries_about(entry_models(entries@), h),
{
    let ghost all = entry_models(entries@);
    let mut rest = entries;
    let mut reversed: Vec<LearnedEntry> = Vec::new();
    let ghost n = rest@.len() as int;
    while rest.len() > 0
        invariant
            all.len() == n,
            rest@.len() + reversed@.len() == n,
            forall|i: int| 0 <= i < rest@.len() ==> (#[trigger] rest@[i])@ == all[i],
            forall|i: int|
                0 <= i < reversed@.len() ==> (#[trigger] reversed@[i])@ == all[n - 1 - i],
        decreases rest@.len(),
    {
        match rest.pop() {
            Some(e) => {
                reversed.push(e);
            },
            None => {},
        }
    }
    let mut out: Vec<LearnedEntry> = Vec::new();
    assert(entry_models(out@) =~= all.take(0));
    while reversed.len() > 0
        invariant
            all.len() == n,
            reversed@.len() <= n,
            forall|i: int|
                0 <= i < reversed@.len() ==> (#[trigger] reversed@[i])@ == all[n - 1 - i],
            sorted_by_host(entry_models(out@)),
            forall|h: Seq<char>| #[trigger]
                entries_about(entry_models(out@), h) == entries_about(
                    all.take(n - reversed@.len()),
                    h,
                ),
        decreases reversed@.len(),
    {
        let ghost before = entry_models(out@);
        let ghost done = n - reversed@.len();
        match reversed.pop() {
            Some(e) => {
                let ghost m = e@;
                assert(m == all[done]);
                insert_in_order(&mut out, e);
                proof {
                    assert(all.take(done + 1) =~= all.take(done).push(m));
                    assert forall|h: Seq<char>| #[trigger]
                        entries_about(entry_models(out@), h) == entries_about(
                            all.take(done + 1),
                            h,
                        ) by {
                        assert(entries_about(entry_models(out@), h) == entries_about(before.push(m), h));
                        before.lemma_filter_push(m, about(h));
                        all.take(done).lemma_filter_push(m, about(h));
                        assert(entries_about(before, h) == entries_about(all.take(done), h));
                    }
                }
            },
            None => {},
        }
    }
    assert(all.take(n) =~= all);
    out
}

// ---------------------------------------------------------------------------
// Tables and entries
// ---------------------------------------------------------------------------

/// A stored decision for a name and everything below it.
pub struct SuffixRule {
    pub pattern: String,
    pub decision: PermanentDecision,
}

/// What a suffix rule says.
pub struct RuleModel {
    pub pattern: Seq<char>,
    pub decision: PermanentDecision,
}

impl View for SuffixRule {
    type V = RuleModel;

    open spec fn view(&self) -> RuleModel {
        RuleModel { pattern: self.pattern@, decision: self.decision }
    }
}

/// What a list of suffix rules says.
pub open spec fn rule_models(rules: Seq<SuffixRule>) -> Seq<RuleModel> {
    rules.map_values(|r: SuffixRule| r@)
}

/// The entry that records a decision for one host.
pub open spec fn exact_entry(host: Seq<char>, decision: PermanentDecision) -> EntryModel {
    EntryModel { host, scope: DecisionScope::Host, decision }
}

/// The entry that records a suffix rule.
pub open spec fn suffix_entry(rule: RuleModel) -> EntryModel {
    EntryModel { host: rule.pattern, scope: DecisionScope::Suffix, decision: rule.decision }
}

/// The entries that record suffix rules, in the order of the rules.
pub open spec fn suffix_entries(rules: Seq<RuleModel>) -> Seq<EntryModel> {
    rules.map_values(|r: RuleModel| suffix_entry(r))
}

/// The entry for one host, where there is a decision for it.
pub open spec fn exact_entries(exact: Map<Seq<char>, PermanentDecision>, host: Seq<char>) -> Seq<
    EntryModel,
> {
    if exact.dom().contains(host) {
        seq![exact_entry(host, exact[host])]
    } else {
        Seq::<EntryModel>::empty()
    }
}

/// Entries that record the decisions for single hosts and the suffix rules, and
/// nothing else: sorted by host, and for each host the decision for the host
/// itself before the rules for the suffix, these in their order.
pub open spec fn records(
    entries: Seq<EntryModel>,
    exact: Map<Seq<char>, PermanentDecision>,
    rules: Seq<RuleModel>,
) -> bool {
    &&& sorted_by_host(entries)
    &&& forall|h: Seq<char>| #[trigger]
        entries_about(entries, h) == exact_entries(exact, h) + entries_about(
            suffix_entries(rules),
            h,
        )
}

/// The entries for the rows of a table of decisions.
spec fn row_entries(rows: Seq<Row<PermanentDecision>>) -> Seq<EntryModel> {
    rows.map_values(|r: Row<PermanentDecision>| exact_entry(r.key@, r.value))
}

/// The rows of a table give the one entry for each of its keys.
proof fn lemma_row_entries(rows: Seq<Row<PermanentDecision>>, host: Seq<char>)
    requires
        table::distinct_keys(rows),
    ensures
        entries_about(row_entries(rows), host) == exact_entries(table::map_of_rows(rows), host),
    decreases rows.len(),
{
    reveal(Seq::filter);
    if rows.len() == 0 {
        assert(!table::has_row(rows, host));
    } else {
        let front = rows.drop_last();
        let n = rows.len() - 1;
        assert(table::distinct_keys(front)) by {
            assert forall|i: int, j: int|
                0 <= i < front.len() && 0 <= j < front.len() && i != j implies (
            #[trigger] front[i]).key@ != (#[trigger] front[j]).key@ by {
                assert(front[i] == rows[i]);
                assert(front[j] == rows[j]);
            }
        }
        lemma_row_entries(front, host);
        assert(row_entries(rows).drop_last() =~= row_entries(front));
        assert(row_entries(rows).last() == exact_entry(rows[n].key@, rows[n].value));
        if rows[n].key@ == host {
            assert(!table::has_row(front, host)) by {
                if table::has_row(front, host) {
                    let i = table::row_of(front, host);
                    assert(rows[i].key@ == host);
                }
            }
            assert(table::row_of(rows, host) == n);
        } else {
            assert(table::has_row(rows, host) == table::has_row(front, host)) by {
                if table::has_row(rows, host) {
                    let i = table::row_of(rows, host);
                    assert(front[i].key@ == host);
                }
                if table::has_row(front, host) {
                    let i = table::row_of(front, host);
                    assert(rows[i].key@ == host);
                }
            }
            if table::has_row(rows, host) {
                let i = table::row_of(front, host);
                assert(rows[i].key@ == host);
                assert(table::row_of(rows, host) == i);
            }
        }
    }
}

/// The entries that record a table of decisions and a list of suffix rules.
pub fn entries_of(exact: &Table<PermanentDecision>, suffix: &Vec<SuffixRule>) -> (r: Vec<
    LearnedEntry,
>)
    ensures
        records(entry_models(r@), exact@, rule_models(suffix@)),
{
    let mut entries: Vec<LearnedEntry> = Vec::new();
    let ghost rows = exact.rows();
    let ghost rules = rule_models(suffix@);
    let n = exact.len();
    let mut i: usize = 0;
    while i < n
        invariant
            i <= n,
            n == rows.len(),
            rows == exact.rows(),
            entry_models(entries@) =~= row_entries(rows.take(i as int)),
        decreases rows.len() - i,
    {
        let row = exact.row(i);
        let ghost before = entry_models(entries@);
        entries.push(
            LearnedEntry {
                host: row.key.clone(),
                scope: DecisionScope::Host,
                decision: row.value,
            },
        );
        proof {
            let added = exact_entry(row.key@, row.value);
            assert(rows.take(i + 1) =~= rows.take(i as int).push(rows[i as int]));
            assert(entries@.last()@ == added);
            assert(entry_models(entries@) =~= before.push(added));
            assert(row_entries(rows.take(i + 1)) =~= row_entries(rows.take(i as int)).push(added));
        }
        i += 1;
    }
    assert(rows.take(rows.len() as int) =~= rows);
    let mut j: usize = 0;
    while j < suffix.len()
        invariant
            j <= suffix@.len(),
            rules == rule_models(suffix@),
            entry_models(entries@) =~= row_entries(rows) + suffix_entries(rules.take(j as int)),
        decreases suffix@.len() - j,
    {
        let ghost before = entry_models(entries@);
        entries.push(
            LearnedEntry {
                host: suffix[j].pattern.clone(),
                scope: DecisionScope::Suffix,
                decision: suffix[j].decision,
            },
        );
        proof {
            let rule = suffix@[j as int]@;
            assert(rules.take(j + 1) =~= rules.take(j as int).push(rule));
            assert(entries@.last()@ == suffix_entry(rule));
            assert(entry_models(entries@) =~= before.push(suffix_entry(rule)));
            assert(suffix_entries(rules.take(j + 1)) =~= suffix_entries(rules.take(j as int)).push(
                suffix_entry(rule),
            ));
        }
        j += 1;
    }
    assert(rules.take(rules.len() as int) =~= rules);
    let ghost unsorted = entry_models(entries@);
    let sorted = sort_entries(entries);
    proof {
        assert forall|h: Seq<char>| #[trigger]
            entries_about(entry_models(sorted@), h) == exact_entries(exact@, h) + entries_about(
                suffix_entries(rules),
                h,
            ) by {
            assert(entries_about(entry_models(sorted@), h) == entries_about(unsorted, h));
            assert(unsorted =~= row_entries(rows) + suffix_entries(rules));
            Seq::filter_distributes_over_add(row_entries(rows), suffix_entries(rules), about(h));
            lemma_row_entries(rows, h);
        }
    }
    sorted
}

/// The decisions for single hosts that entries stand for. Of two entries for
/// one host the later one counts; an entry without a host counts for nothing.
pub open spec fn loaded_exact(entries: Seq<EntryModel>) -> Map<Seq<char>, PermanentDecision>
    decreases entries.len(),
{
    if entries.len() == 0 {
        Map::empty()
    } else {
        let before = loaded_exact(entries.drop_last());
        let e = entries.last();
        let key = text::normalized(e.host);
        if e.scope is Host && key.len() > 0 {
            before.insert(key, e.decision)
        } else {
            before
        }
    }
}

/// The suffix rules that entries stand for, in their order. An entry that has
/// no suffix counts for nothing.
pub open spec fn loaded_suffix(entries: Seq<EntryModel>) -> Seq<RuleModel>
    decreases entries.len(),
{
    if entries.len() == 0 {
        Seq::empty()
    } else {
        let before = loaded_suffix(entries.drop_last());
        let e = entries.last();
        let pattern = text::strip_start(text::normalized(e.host), '.');
        if e.scope is Suffix && pattern.len() > 0 {
            before.push(RuleModel { pattern, decision: e.decision })
        } else {
            before
        }
    }
}

/// The tables that the entries of a file stand for.
pub fn tables_of(entries: &Vec<LearnedEntry>) -> (r: (Table<PermanentDecision>, Vec<SuffixRule>))
    ensures
        r.0@ == loaded_exact(entry_models(entries@)),
        rule_models(r.1@) == loaded_suffix(entry_models(entries@)),
{
    let mut exact: Table<PermanentDecision> = Table::new();
    let mut suffix: Vec<SuffixRule> = Vec::new();
    let ghost all = entry_models(entries@);
    let mut i: usize = 0;
    while i < entries.len()
        invariant
            i <= entries@.len(),
            all == entry_models(entries@),
            exact@ == loaded_exact(all.take(i as int)),
            rule_models(suffix@) =~= loaded_suffix(all.take(i as int)),
        decreases entries@.len() - i,
    {
        let entry = &entries[i];
        let normalized = text::normalize(entry.host.as_str());
        proof {
            assert(all.take(i + 1).drop_last() =~= all.take(i as int));
            assert(all.take(i + 1).last() == entry@);
            assert(normalized@.len() == 0 ==> text::strip_start(normalized@, '.').len() == 0);
        }
        if !normalized.as_str().is_empty() {
            match entry.scope {
                DecisionScope::Host => {
                    exact.insert(normalized, entry.decision);
                },
                DecisionScope::Suffix => {
                    let pattern = text::trim_start_char(normalized.as_str(), '.');
                    if !pattern.as_str().is_empty() {
                        suffix.push(SuffixRule { pattern, decision: entry.decision });
                    }
                },
            }
        }
        i += 1;
    }
    assert(all.take(all.len() as int) =~= all);
    (exact, suffix)
}

// ---------------------------------------------------------------------------
// Laws
// ---------------------------------------------------------------------------

/// Of two runs of entries the later decides where both are about one host, and
/// the suffix rules of the later come behind those of the earlier.
pub proof fn law_later_entries_win(a: Seq<EntryModel>, b: Seq<EntryModel>)
    ensures
        loaded_exact(a + b) == loaded_exact(a).union_prefer_right(loaded_exact(b)),
        loaded_suffix(a + b) == loaded_suffix(a) + loaded_suffix(b),
    decreases b.len(),
{
    let all = a + b;
    if b.len() == 0 {
        assert(all =~= a);
        assert(loaded_exact(all) =~= loaded_exact(a).union_prefer_right(loaded_exact(b)));
        assert(loaded_suffix(all) =~= loaded_suffix(a) + loaded_suffix(b));
    } else {
        law_later_entries_win(a, b.drop_last());
        assert(all.drop_last() =~= a + b.drop_last());
        assert(all.last() == b.last());
        assert(loaded_exact(all) =~= loaded_exact(a).union_prefer_right(loaded_exact(b)));
        assert(loaded_suffix(all) =~= loaded_suffix(a) + loaded_suffix(b));
    }
}

/// An entry about a host stands for its decision about the normalized host, and
/// one about a suffix for a rule about the normalized suffix without leading
/// dots. A blank one stands for nothing.
pub proof fn law_entry_stands_for_decision(e: EntryModel)
    ensures
        e.scope == DecisionScope::Host ==> loaded_suffix(seq![e]).len() == 0,
        e.scope == DecisionScope::Suffix ==> loaded_exact(seq![e]).dom() == Set::<Seq<char>>::empty(),
        e.scope == DecisionScope::Host && text::normalized(e.host).len() > 0 ==> loaded_exact(seq![e])
            == Map::<Seq<char>, PermanentDecision>::empty().insert(
            text::normalized(e.host),
            e.decision,
        ),
        text::normalized(e.host).len() == 0 ==> loaded_exact(seq![e]).dom()
            == Set::<Seq<char>>::empty(),
        e.scope == DecisionScope::Suffix && text::strip_start(text::normalized(e.host), '.').len() > 0
            ==> loaded_suffix(seq![e]) == seq![
            RuleModel {
                pattern: text::strip_start(text::normalized(e.host), '.'),
                decision: e.decision,
            },
        ],
        text::strip_start(text::normalized(e.host), '.').len() == 0 ==> loaded_suffix(seq![e]).len()
            == 0,
{
    let one = seq![e];
    assert(one.drop_last() =~= Seq::<EntryModel>::empty());
    assert(loaded_exact(one.drop_last()) =~= Map::<Seq<char>, PermanentDecision>::empty());
    assert(loaded_suffix(one.drop_last()) =~= Seq::<RuleModel>::empty());
    assert(loaded_exact(one).dom() =~= loaded_exact(one).dom());
    if !(e.scope is Host && text::normalized(e.host).len() > 0) {
        assert(loaded_exact(one).dom() =~= Set::<Seq<char>>::empty());
    }
    if e.scope is Suffix && text::strip_start(text::normalized(e.host), '.').len() > 0 {
        assert(loaded_suffix(one) =~= seq![
            RuleModel {
                pattern: text::strip_start(text::normalized(e.host), '.'),
                decision: e.decision,
            },
        ]);
    }
}

proof fn lemma_about_contains(entries: Seq<EntryModel>, e: EntryModel)
    ensures
        entries.contains(e) <==> entries_about(entries, e.host).contains(e),
{
    if entries.contains(e) {
        let i = choose|i: int| 0 <= i < entries.len() && entries[i] == e;
        entries.lemma_filter_contains(about(e.host), i);
    }
    if entries_about(entries, e.host).contains(e) {
        entries.lemma_filter_contains_rev(about(e.host), e);
    }
}

/// A file that records decisions holds an entry about a host exactly for the
/// decision about it, and one about a suffix exactly for the rules about it.
/// Its entries stand in the order of their hosts.
pub proof fn law_file_holds_the_decisions(
    entries: Seq<EntryModel>,
    exact: Map<Seq<char>, PermanentDecision>,
    rules: Seq<RuleModel>,
    host: Seq<char>,
    decision: PermanentDecision,
)
    requires
        records(entries, exact, rules),
    ensures
        entries.contains(EntryModel { host, scope: DecisionScope::Host, decision })
            <==> exact.dom().contains(host) && exact[host] == decision,
        entries.contains(EntryModel { host, scope: DecisionScope::Suffix, decision })
            <==> rules.contains(RuleModel { pattern: host, decision }),
        forall|i: int, j: int|
            0 <= i < j < entries.len() ==> text::text_le(
                (#[trigger] entries[i]).host,
                (#[trigger] entries[j]).host,
            ),
{
    let single = EntryModel { host, scope: DecisionScope::Host, decision };
    let below = EntryModel { host, scope: DecisionScope::Suffix, decision };
    let rule = RuleModel { pattern: host, decision };
    let all = suffix_entries(rules);
    let first = exact_entries(exact, host);
    let rest = entries_about(all, host);
    assert(entries_about(entries, host) == first + rest);
    lemma_about_contains(entries, single);
    lemma_about_contains(entries, below);
    lemma_about_contains(all, single);
    lemma_about_contains(all, below);
    assert(!all.contains(single)) by {
        if all.contains(single) {
            let k = choose|k: int| 0 <= k < all.len() && all[k] == single;
            assert(all[k] == suffix_entry(rules[k]));
        }
    }
    assert(all.contains(below) <==> rules.contains(rule)) by {
        if all.contains(below) {
            let k = choose|k: int| 0 <= k < all.len() && all[k] == below;
            assert(all[k] == suffix_entry(rules[k]));
            assert(rules[k] == rule);
        }
        if rules.contains(rule) {
            let k = choose|k: int| 0 <= k < rules.len() && rules[k] == rule;
            assert(all[k] == below);
        }
    }
    let both = first + rest;
    assert(both.contains(single) <==> first.contains(single)) by {
        if both.contains(single) {
            let k = choose|k: int| 0 <= k < both.len() && both[k] == single;
            if k < first.len() {
                assert(first[k] == single);
            } else {
                assert(rest[k - first.len()] == single);
                assert(rest.contains(single));
            }
        }
        if first.contains(single) {
            let k = choose|k: int| 0 <= k < first.len() && first[k] == single;
            assert(both[k] == single);
        }
    }
    assert(first.contains(single) <==> exact.dom().contains(host) && exact[host] == decision) by {
        if exact.dom().contains(host) && exact[host] == decision {
            assert(first[0] == single);
        }
    }
    assert(both.contains(below) <==> rest.contains(below)) by {
        if both.contains(below) {
            let k = choose|k: int| 0 <= k < both.len() && both[k] == below;
            if k >= first.len() {
                assert(rest[k - first.len()] == below);
            }
        }
        if rest.contains(below) {
            let k = choose|k: int| 0 <= k < rest.len() && rest[k] == below;
            assert(both[k + first.len()] == below);
        }
    }
}

/// Whether a rule has a pattern.
pub open spec fn with_pattern(pattern: Seq<char>) -> spec_fn(RuleModel) -> bool {
    |r: RuleModel| r.pattern == pattern
}

proof fn lemma_entries_of_rules(rules: Seq<RuleModel>, host: Seq<char>)
    ensures
        entries_about(suffix_entries(rules), host).len() == rules.filter(with_pattern(host)).len(),
        forall|k: int|
            0 <= k < rules.filter(with_pattern(host)).len() ==> #[trigger] entries_about(
                suffix_entries(rules),
                host,
            )[k] == suffix_entry(rules.filter(with_pattern(host))[k])
                && rules.filter(with_pattern(host))[k].pattern == host,
    decreases rules.len(),
{
    reveal(Seq::filter);
    if rules.len() > 0 {
        lemma_entries_of_rules(rules.drop_last(), host);
        assert(suffix_entries(rules).drop_last() =~= suffix_entries(rules.drop_last()));
        assert(suffix_entries(rules).last() == suffix_entry(rules.last()));
    }
}

/// What a file that records decisions holds about one host, in this order and
/// nothing besides: one entry for the decision about the host itself, where there
/// is one, and one for each rule about the suffix.
pub proof fn law_file_lists_each_decision_once(
    entries: Seq<EntryModel>,
    exact: Map<Seq<char>, PermanentDecision>,
    rules: Seq<RuleModel>,
    host: Seq<char>,
    k: int,
)
    requires
        records(entries, exact, rules),
    ensures
        ({
            let found = entries.filter(|e: EntryModel| e.host == host);
            let below = rules.filter(|r: RuleModel| r.pattern == host);
            let first: int = if exact.dom().contains(host) {
                1
            } else {
                0
            };
            &&& found.len() == first + below.len()
            &&& first == 1 ==> found[0] == (EntryModel {
                host,
                scope: DecisionScope::Host,
                decision: exact[host],
            })
            &&& 0 <= k < below.len() ==> found[first + k] == (EntryModel {
                host,
                scope: DecisionScope::Suffix,
                decision: below[k].decision,
            })
        }),
{
    let found = entries.filter(|e: EntryModel| e.host == host);
    let below = rules.filter(|r: RuleModel| r.pattern == host);
    assert((|e: EntryModel| e.host == host) =~= about(host));
    assert((|r: RuleModel| r.pattern == host) =~= with_pattern(host));
    assert(found == entries_about(entries, host));
    lemma_entries_of_rules(rules, host);
    let rest = entries_about(suffix_entries(rules), host);
    assert(found == exact_entries(exact, host) + rest);
    if 0 <= k < below.len() {
        assert(rest[k] == suffix_entry(below[k]));
    }
}

/// The models of lists stand in their order.
pub proof fn law_models_keep_their_order(
    entries: Seq<LearnedEntry>,
    rules: Seq<SuffixRule>,
    i: int,
)
    ensures
        entry_models(entries).len() == entries.len(),
        0 <= i < entries.len() ==> entry_models(entries)[i] == (EntryModel {
            host: entries[i].host@,
            scope: entries[i].scope,
            decision: entries[i].decision,
        }),
        rule_models(rules).len() == rules.len(),
        0 <= i < rules.len() ==> rule_models(rules)[i] == (RuleModel {
            pattern: rules[i].pattern@,
            decision: rules[i].decision,
        }),
{
}

} // verus!
