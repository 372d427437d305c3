//! Laws of the proxy filter.

use crate::decision::{PermanentDecision, PromptDecision};
use crate::filter;
use crate::filter::{Consult, FilterModel, IpAddress, Reply, ResultModel, SocketAddress};
use crate::host;
use crate::policy::PolicyModel;
use crate::text;
use crate::text_laws;
use vstd::prelude::*;

verus! {

/// Cloud metadata hosts and hosts with a link-local address are denied whatever
/// the allowlist holds; nothing is asked about them, and no reply of the
/// interactive policy changes that.
pub proof fn law_absolute_denies_are_never_promptable(
    f: FilterModel,
    host: Seq<char>,
    ips: Seq<IpAddress>,
    reply: Reply,
)
    requires
        filter::is_metadata_host(text::lowercase(host)) || filter::has_link_local(ips),
    ensures
        f.check(host, ips) !is Allow,
        f.consults(host, f.check(host, ips)) == Consult::Nothing,
        filter::concluded(
            host,
            f.check(host, ips),
            f.consults(host, f.check(host, ips)),
            reply,
        ) == f.check(host, ips),
{
}

/// Where a link-local address is named in a denial, it is one that the host
/// resolved to.
pub proof fn law_denied_address_is_link_local(
    f: FilterModel,
    host: Seq<char>,
    ips: Seq<IpAddress>,
    ip: IpAddress,
)
    requires
        f.check(host, ips) == (ResultModel::DenyLinkLocal { ip }),
    ensures
        ip.link_local(),
        ips.contains(ip),
{
    let k = choose|k: int| 0 <= k < ips.len() && (#[trigger] ips[k]).link_local();
    lemma_first_link_local_exists(ips, k);
    let i = choose|i: int| filter::is_first_link_local(ips, i);
    assert(filter::is_first_link_local(ips, i));
    assert(ips[i] == ip);
}

proof fn lemma_first_link_local_exists(ips: Seq<IpAddress>, k: int)
    requires
        0 <= k < ips.len(),
        ips[k].link_local(),
    ensures
        exists|i: int| filter::is_first_link_local(ips, i),
    decreases k,
{
    if exists|j: int| 0 <= j < k && (#[trigger] ips[j]).link_local() {
        let j = choose|j: int| 0 <= j < k && (#[trigger] ips[j]).link_local();
        lemma_first_link_local_exists(ips, j);
    } else {
        assert(filter::is_first_link_local(ips, k));
    }
}

/// Outside interactive mode the result of the filter stands, whatever the reply.
pub proof fn law_result_stands_without_interactive(
    f: FilterModel,
    host: Seq<char>,
    ips: Seq<IpAddress>,
    reply: Reply,
)
    requires
        !f.interactive,
    ensures
        filter::concluded(
            host,
            f.check(host, ips),
            f.consults(host, f.check(host, ips)),
            reply,
        ) == f.check(host, ips),
{
}

/// In interactive mode the policy has to decide about exactly the hosts that are
/// not denied absolutely, but for those that the filter allows and the allowlist
/// names.
pub proof fn law_who_is_asked_about(f: FilterModel, host: Seq<char>, ips: Seq<IpAddress>)
    requires
        f.interactive,
    ensures
        f.consults(host, f.check(host, ips)) == Consult::Decision <==> {
            &&& !filter::is_metadata_host(text::lowercase(host))
            &&& !filter::has_link_local(ips)
            &&& f.check(host, ips) is Allow ==> !f.explicitly_allows(host)
        },
{
}

/// A host is let through only if the filter allows it or the interactive policy
/// decides to allow it.
pub proof fn law_allow_needs_a_reason(
    f: FilterModel,
    host: Seq<char>,
    ips: Seq<IpAddress>,
    reply: Reply,
)
    requires
        filter::concluded(
            host,
            f.check(host, ips),
            f.consults(host, f.check(host, ips)),
            reply,
        ) is Allow,
    ensures
        f.check(host, ips) is Allow || (reply matches Reply::Decided(decision)
            && decision.allows()),
{
}

/// A denial of the interactive policy that was asked for is final.
pub proof fn law_policy_denial_is_enforced(
    f: FilterModel,
    host: Seq<char>,
    ips: Seq<IpAddress>,
    decision: PromptDecision,
)
    requires
        f.consults(host, f.check(host, ips)) == Consult::Decision,
        !decision.allows(),
    ensures
        filter::concluded(
            host,
            f.check(host, ips),
            Consult::Decision,
            Reply::Decided(decision),
        ) == (ResultModel::DenyNotAllowed { host }),
{
}

/// A stored deny revokes what the allowlist names: no host that the filter does
/// not deny absolutely gets past it in interactive mode.
pub proof fn law_stored_deny_overrides_allowlist(
    f: FilterModel,
    p: PolicyModel,
    host: Seq<char>,
    ips: Seq<IpAddress>,
)
    requires
        f.interactive,
        p.stored(host) == Some(PermanentDecision::Deny),
    ensures
        f.consults(host, f.check(host, ips)) == Consult::Stored ==> filter::concluded(
            host,
            f.check(host, ips),
            Consult::Stored,
            Reply::Stored(p.stored(host)),
        ) == (ResultModel::DenyNotAllowed { host }),
        f.consults(host, f.check(host, ips)) == Consult::Decision ==> filter::concluded(
            host,
            f.check(host, ips),
            Consult::Decision,
            Reply::Decided(PromptDecision::once(PermanentDecision::Deny)),
        ) == (ResultModel::DenyNotAllowed { host }),
        f.consults(host, f.check(host, ips)) == Consult::Nothing ==> f.check(host, ips) !is Allow,
{
}

/// An allowlist entry in one of the two documented forms: a host, or `*.` and a
/// name.
pub open spec fn is_wellformed_entry(entry: Seq<char>) -> bool {
    entry.len() > 0 && entry.first() == '*' ==> entry.len() > 2 && entry[1] == '.' && entry[2] != '.'
}

/// A host that an allowlist of documented entries permits is one that it names,
/// so that nobody is asked about it.
pub proof fn law_permitted_hosts_are_named(f: FilterModel, host: Seq<char>, ips: Seq<IpAddress>)
    requires
        f.allow.len() > 0,
        forall|i: int| 0 <= i < f.allow.len() ==> is_wellformed_entry(#[trigger] f.allow[i]),
        f.check(host, ips) is Allow,
    ensures
        f.explicitly_allows(host),
{
    broadcast use vstd::seq_lib::group_to_multiset_ensures;

    let lower = text::lowercase(host);
    let entries = f.allow.to_multiset();
    assert(entries.len() == f.allow.len());
    let entry = choose|entry: Seq<char>| #[trigger]
        entries.contains(entry) && filter::permits(entry, lower);
    assert(f.allow.contains(entry));
    let i = choose|i: int| 0 <= i < f.allow.len() && f.allow[i] == entry;
    assert(is_wellformed_entry(f.allow[i]));
    if entry.len() > 0 && entry.first() == '*' {
        let rest = entry.drop_first();
        let base = text::strip_start(rest, '.');
        assert(rest.first() == '.');
        assert(rest.drop_first().first() != '.');
        assert(base == rest.drop_first()) by {
            reveal_with_fuel(text::strip_start, 2);
        }
        assert(rest =~= seq!['.'] + base);
        assert(host::covers(base, lower));
    }
    assert(filter::names(f.allow[i], lower));
}

/// Without an allowlist every host that is not denied absolutely is allowed, and
/// in interactive mode asked about.
pub proof fn law_allow_all_asks_about_everything(
    f: FilterModel,
    host: Seq<char>,
    ips: Seq<IpAddress>,
)
    requires
        f.allow.len() == 0,
        !filter::is_metadata_host(text::lowercase(host)),
        !filter::has_link_local(ips),
    ensures
        f.check(host, ips) is Allow,
        f.interactive ==> f.consults(host, f.check(host, ips)) == Consult::Decision,
{
    broadcast use vstd::seq_lib::group_to_multiset_ensures;

    assert(f.allow.to_multiset().len() == f.allow.len());
}

/// Where the policy is asked to decide, the check ends as it decides: an allowing
/// decision of any kind lets the host through, and any other refuses it by name.
pub proof fn law_decision_concludes_the_check(
    f: FilterModel,
    host: Seq<char>,
    ips: Seq<IpAddress>,
    decision: PromptDecision,
)
    requires
        f.consults(host, f.check(host, ips)) == Consult::Decision,
    ensures
        decision == PromptDecision::AllowOnce || decision == PromptDecision::AllowPermanentHost
            || decision == PromptDecision::AllowPermanentSuffix ==> filter::concluded(
            host,
            f.check(host, ips),
            Consult::Decision,
            Reply::Decided(decision),
        ) == ResultModel::Allow,
        decision == PromptDecision::DenyOnce || decision == PromptDecision::DenyPermanentHost
            || decision == PromptDecision::DenyPermanentSuffix ==> filter::concluded(
            host,
            f.check(host, ips),
            Consult::Decision,
            Reply::Decided(decision),
        ) == (ResultModel::DenyNotAllowed { host }),
{
}

/// Without a decision that was asked for, and without a stored deny that was
/// asked for, the result stands.
pub proof fn law_result_stands_without_a_word(
    host: Seq<char>,
    result: ResultModel,
    consult: Consult,
    reply: Reply,
)
    ensures
        reply == Reply::Failed || reply == Reply::Nothing || reply == Reply::Stored(None) || reply
            == Reply::Stored(Some(PermanentDecision::Allow)) ==> filter::concluded(
            host,
            result,
            consult,
            reply,
        ) == result,
        reply is Decided && consult != Consult::Decision ==> filter::concluded(
            host,
            result,
            consult,
            reply,
        ) == result,
        reply is Stored && consult != Consult::Stored ==> filter::concluded(
            host,
            result,
            consult,
            reply,
        ) == result,
        reply == Reply::Stored(Some(PermanentDecision::Deny)) && consult == Consult::Stored
            ==> filter::concluded(host, result, consult, reply) == (ResultModel::DenyNotAllowed {
            host,
        }),
{
}

/// What is asked of the policy, for each result: nothing outside interactive mode
/// or after an absolute deny, a decision after any other denial, and after an
/// allow a decision unless the allowlist names the host.
pub proof fn law_what_is_asked(f: FilterModel, host: Seq<char>, result: ResultModel)
    ensures
        !f.interactive ==> f.consults(host, result) == Consult::Nothing,
        f.interactive && (result is DenyHost || result is DenyLinkLocal) ==> f.consults(host, result)
            == Consult::Nothing,
        f.interactive && result is DenyNotAllowed ==> f.consults(host, result) == Consult::Decision,
        f.interactive && result is Allow && (exists|i: int|
            0 <= i < f.allow.len() && filter::names(#[trigger] f.allow[i], text::lowercase(host)))
            ==> f.consults(host, result) == Consult::Stored,
        f.interactive && result is Allow && (forall|i: int|
            0 <= i < f.allow.len() ==> !filter::names(#[trigger] f.allow[i], text::lowercase(host)))
            ==> f.consults(host, result) == Consult::Decision,
{
}

/// How a check goes: the three metadata hosts are denied by name, then a host
/// with a link-local address, by the first of them; after that the host needs an
/// entry that permits it, unless there are no entries.
pub proof fn law_order_of_the_checks(f: FilterModel, host: Seq<char>, ips: Seq<IpAddress>, k: int)
    ensures
        ({
            let lower = text::lowercase(host);
            let metadata = lower == "169.254.169.254"@ || lower == "metadata.google.internal"@ || lower
                == "metadata.azure.internal"@;
            &&& metadata ==> f.check(host, ips) == (ResultModel::DenyHost { host })
            &&& !metadata && 0 <= k < ips.len() && ips[k].link_local() && (forall|j: int|
                0 <= j < k ==> !(#[trigger] ips[j]).link_local()) ==> f.check(host, ips) == (
            ResultModel::DenyLinkLocal { ip: ips[k] })
            &&& !metadata && (forall|j: int| 0 <= j < ips.len() ==> !(#[trigger] ips[j]).link_local())
                ==> f.check(host, ips) == (if f.allow.len() == 0 || exists|i: int|
                0 <= i < f.allow.len() && filter::permits(#[trigger] f.allow[i], lower) {
                ResultModel::Allow
            } else {
                ResultModel::DenyNotAllowed { host }
            })
        }),
{
    broadcast use vstd::seq_lib::group_to_multiset_ensures;

    let lower = text::lowercase(host);
    let entries = f.allow.to_multiset();
    assert(entries.len() == f.allow.len());
    if 0 <= k < ips.len() && ips[k].link_local() && (forall|j: int|
        0 <= j < k ==> !(#[trigger] ips[j]).link_local()) {
        assert(filter::is_first_link_local(ips, k));
        let i = choose|i: int| filter::is_first_link_local(ips, i);
        assert(filter::is_first_link_local(ips, i));
        assert(ips[i].link_local());
        assert(i == k);
    }
    if exists|i: int| 0 <= i < f.allow.len() && filter::permits(#[trigger] f.allow[i], lower) {
        let i = choose|i: int|
            0 <= i < f.allow.len() && filter::permits(#[trigger] f.allow[i], lower);
        assert(f.allow.contains(f.allow[i]));
        assert(entries.contains(f.allow[i]));
    }
    if exists|entry: Seq<char>| #[trigger]
        entries.contains(entry) && filter::permits(entry, lower) {
        let entry = choose|entry: Seq<char>| #[trigger]
            entries.contains(entry) && filter::permits(entry, lower);
        assert(f.allow.contains(entry));
        let i = choose|i: int| 0 <= i < f.allow.len() && f.allow[i] == entry;
        assert(filter::permits(f.allow[i], lower));
    }
}

/// An entry without a star permits and names itself alone. One with a star
/// permits what ends with the rest and is longer, and names what the rest
/// without its leading dots covers.
pub proof fn law_what_an_entry_permits(
    entry: Seq<char>,
    dots: Seq<char>,
    base: Seq<char>,
    lower: Seq<char>,
)
    requires
        entry.len() > 0 ==> entry[0] != '*',
        text_laws::is_run(dots, '.'),
        base.len() > 0 ==> base[0] != '.',
    ensures
        filter::permits(entry, lower) <==> lower == entry,
        filter::names(entry, lower) <==> lower == entry,
        ({
            let star = seq!['*'] + (dots + base);
            let rest = dots + base;
            &&& filter::permits(star, lower) <==> lower.len() > rest.len() && lower.skip(
                lower.len() - rest.len(),
            ) == rest
            &&& filter::names(star, lower) <==> host::covers(base, lower)
        }),
{
    let rest = dots + base;
    let star = seq!['*'] + rest;
    assert(star.drop_first() =~= rest);
    assert(star.first() == '*');
    text_laws::law_stripping_start_leaves_the_rest(dots, base, '.');
    if lower.len() > rest.len() {
        assert(lower.skip(lower.len() - rest.len()) =~= lower.subrange(
            lower.len() - rest.len(),
            lower.len() as int,
        ));
    }
}

/// Link-local are the IPv4 addresses that begin with 169.254, the IPv6 addresses
/// whose first ten bits are those of fe80, and the former mapped into IPv6.
pub proof fn law_link_local_ranges(
    v4: (u8, u8, u8, u8),
    v6: (u16, u16, u16, u16, u16, u16, u16, u16),
)
    ensures
        IpAddress::V4(v4.0, v4.1, v4.2, v4.3).link_local() <==> v4.0 == 169 && v4.1 == 254,
        IpAddress::V6(v6.0, v6.1, v6.2, v6.3, v6.4, v6.5, v6.6, v6.7).link_local() <==> v6.0
            & 0xffc0u16 == 0xfe80u16 || (v6.0 == 0 && v6.1 == 0 && v6.2 == 0 && v6.3 == 0 && v6.4
            == 0 && v6.5 == 0xffff && v6.6 == 169 * 256 + 254),
{
    let a = v6.0;
    assert(a & 0xffc0u16 == 0xfe80u16 <==> 0xfe80u16 <= a && a <= 0xfebfu16) by (bit_vector);
}

/// The addresses of a check are those of the sockets, in their order, and the
/// entries of a filter the lowercased ones it was given.
pub proof fn law_lists_keep_their_order(
    resolved: Seq<SocketAddress>,
    hosts: Seq<Seq<char>>,
    i: int,
)
    ensures
        filter::ips_of(resolved).len() == resolved.len(),
        0 <= i < resolved.len() ==> filter::ips_of(resolved)[i] == resolved[i].ip,
        filter::lowercased(hosts).len() == hosts.len(),
        0 <= i < hosts.len() ==> filter::lowercased(hosts)[i] == text::lowercase(hosts[i]),
{
}

} // verus!
