//! Host filtering for the proxy.
//!
//! A host is checked against the allowlist and the absolute denies of
//! [`nono::HostFilter`], with the addresses it resolved to. In interactive mode
//! the result may depend on the interactive policy: a check says what to ask of
//! it ([`ProxyFilter::check_host`]) and is concluded with the reply
//! ([`HostCheck::conclude`]).

use crate::decision::{PermanentDecision, PromptDecision};
use crate::host;
use crate::text;
use nono::HostFilter;
use vstd::multiset::Multiset;
use vstd::prelude::*;

verus! {

// ---------------------------------------------------------------------------
// Addresses
// ---------------------------------------------------------------------------

/// An IP address, by its octets or its 16-bit groups.
#[derive(Debug, Clone, Copy, PartialEq, Eq, Structural)]
pub enum IpAddress {
    V4(u8, u8, u8, u8),
    V6(u16, u16, u16, u16, u16, u16, u16, u16),
}

/// An IP address and a port, with what only IPv6 adds to them.
#[derive(Debug, Clone, Copy, PartialEq, Eq, Structural)]
pub struct SocketAddress {
    pub ip: IpAddress,
    pub port: u16,
    pub flowinfo: u32,
    pub scope_id: u32,
}

impl IpAddress {
    /// The link-local ranges 169.254.0.0/16 and fe80::/10, and the first of
    /// them mapped into IPv6.
    pub open spec fn link_local(self) -> bool {
        match self {
            IpAddress::V4(a, b, _, _) => a == 169 && b == 254,
            IpAddress::V6(a, b, c, d, e, f, g, _) => {
                ||| 0xfe80 <= a <= 0xfebf
                ||| a == 0 && b == 0 && c == 0 && d == 0 && e == 0 && f == 0xffff && g == 0xa9fe
            },
        }
    }

    /// Whether the address is in a link-local range.
    #[must_use]
    pub fn is_link_local(&self) -> (r: bool)
        ensures
            r == self.link_local(),
    {
        match self {
            IpAddress::V4(a, b, _, _) => *a == 169 && *b == 254,
            IpAddress::V6(a, b, c, d, e, f, g, _) => (0xfe80 <= *a && *a <= 0xfebf) || (*a == 0 && *b
                == 0 && *c == 0 && *d == 0 && *e == 0 && *f == 0xffff && *g == 0xa9fe),
        }
    }
}

/// Whether an address is the first link-local one of a list.
pub open spec fn is_first_link_local(ips: Seq<IpAddress>, i: int) -> bool {
    &&& 0 <= i < ips.len()
    &&& ips[i].link_local()
    &&& forall|j: int| 0 <= j < i ==> !(#[trigger] ips[j]).link_local()
}

/// Whether a list holds a link-local address.
pub open spec fn has_link_local(ips: Seq<IpAddress>) -> bool {
    exists|i: int| 0 <= i < ips.len() && (#[trigger] ips[i]).link_local()
}

// ---------------------------------------------------------------------------
// Trusted items: the host filter of the sandbox library
// ---------------------------------------------------------------------------

/// The host filter of the sandbox library.
#[verifier::external_type_specification]
#[verifier::external_body]
pub struct ExHostFilter(HostFilter);

/// The allowlist entries that a host filter holds, lowercased. An entry that
/// begins with `*` is a wildcard.
pub uninterp spec fn allowlist(filter: HostFilter) -> Multiset<Seq<char>>;

/// The lowercase forms of a list of texts.
pub open spec fn lowercased(list: Seq<Seq<char>>) -> Seq<Seq<char>> {
    list.map_values(|s: Seq<char>| text::lowercase(s))
}

/// Cloud metadata hosts, which no allowlist can permit.
pub open spec fn is_metadata_host(lower: Seq<char>) -> bool {
    ||| lower == "169.254.169.254"@
    ||| lower == "metadata.google.internal"@
    ||| lower == "metadata.azure.internal"@
}

/// Whether an allowlist entry permits a lowercased host: `*` and a suffix permit
/// what ends with the suffix and is longer, any other entry permits itself.
pub open spec fn permits(entry: Seq<char>, lower: Seq<char>) -> bool {
    if entry.len() > 0 && entry.first() == '*' {
        entry.drop_first().is_suffix_of(lower) && entry.len() - 1 < lower.len()
    } else {
        lower == entry
    }
}

/// Whether an allowlist permits a lowercased host. An empty one permits all.
pub open spec fn list_permits(entries: Multiset<Seq<char>>, lower: Seq<char>) -> bool {
    entries.len() == 0 || exists|entry: Seq<char>| #[trigger]
        entries.contains(entry) && permits(entry, lower)
}

/// What the host filter says about a host, without the address that it names
/// where one is link-local.
pub enum HostVerdict {
    Allow,
    DenyHost(String),
    DenyLinkLocal,
    DenyNotAllowed(String),
}

/// `HostFilter::new`: a filter that permits the given entries. They are kept in
/// lowercase; one that begins with `*` is kept as a wildcard, without the star.
#[verifier::external_body]
fn host_filter_new(allowed_hosts: &[String]) -> (r: HostFilter)
    ensures
        allowlist(r) == lowercased(text::texts(allowed_hosts@)).to_multiset(),
{
    HostFilter::new(allowed_hosts)
}

/// `HostFilter::allow_all`: a filter without allowlist entries.
#[verifier::external_body]
fn host_filter_allow_all() -> (r: HostFilter)
    ensures
        allowlist(r) == Multiset::<Seq<char>>::empty(),
{
    HostFilter::allow_all()
}

/// `HostFilter::clone`: a filter with the same allowlist entries.
#[verifier::external_body]
fn host_filter_clone(filter: &HostFilter) -> (r: HostFilter)
    ensures
        allowlist(r) == allowlist(*filter),
{
    filter.clone()
}

/// `HostFilter::allowed_count`: how many allowlist entries there are, exact ones
/// and wildcards together.
#[verifier::external_body]
fn host_filter_allowed_count(filter: &HostFilter) -> (r: usize)
    ensures
        r == allowlist(*filter).len(),
{
    filter.allowed_count()
}

/// `HostFilter::check_host`: metadata hosts are denied first, then hosts with a
/// link-local address; after that the allowlist decides. Host names compare in
/// lowercase, and a denial repeats the host as it was given.
#[verifier::external_body]
fn host_filter_check(filter: &HostFilter, host: &str, ips: &[IpAddress]) -> (r: HostVerdict)
    ensures
        (r is DenyHost) == is_metadata_host(text::lowercase(host@)),
        (r is DenyLinkLocal) == (!is_metadata_host(text::lowercase(host@)) && has_link_local(ips@)),
        (r is Allow) == (!is_metadata_host(text::lowercase(host@)) && !has_link_local(ips@)
            && list_permits(allowlist(*filter), text::lowercase(host@))),
        r is DenyHost ==> r->DenyHost_0@ == host@,
        r is DenyNotAllowed ==> r->DenyNotAllowed_0@ == host@,
{
    let convert = |ip: &IpAddress| match ip {
        IpAddress::V4(a, b, c, d) => [*a, *b, *c, *d].into(),
        IpAddress::V6(a, b, c, d, e, f, g, h) => [*a, *b, *c, *d, *e, *f, *g, *h].into(),
    };
    let addresses: Vec<_> = ips.iter().map(convert).collect();
    match filter.check_host(host, &addresses) {
        nono::FilterResult::Allow => HostVerdict::Allow,
        nono::FilterResult::DenyHost { host } => HostVerdict::DenyHost(host),
        nono::FilterResult::DenyLinkLocal { .. } => HostVerdict::DenyLinkLocal,
        nono::FilterResult::DenyNotAllowed { host } => HostVerdict::DenyNotAllowed(host),
    }
}

// ---------------------------------------------------------------------------
// Results
// ---------------------------------------------------------------------------

/// Result of a host filter check.
#[derive(Debug)]
pub enum FilterResult {
    /// Host is allowed by the allowlist
    Allow,
    /// Host is denied because a specific hostname is in the deny list
    DenyHost { host: String },
    /// Host is denied because a resolved IP is in the link-local range
    DenyLinkLocal { ip: IpAddress },
    /// Host is not in the allowlist (default deny)
    DenyNotAllowed { host: String },
}

/// What a filter result says.
pub enum ResultModel {
    Allow,
    DenyHost { host: Seq<char> },
    DenyLinkLocal { ip: IpAddress },
    DenyNotAllowed { host: Seq<char> },
}

impl View for FilterResult {
    type V = ResultModel;

    open spec fn view(&self) -> ResultModel {
        match self {
            FilterResult::Allow => ResultModel::Allow,
            FilterResult::DenyHost { host } => ResultModel::DenyHost { host: host@ },
            FilterResult::DenyLinkLocal { ip } => ResultModel::DenyLinkLocal { ip: *ip },
            FilterResult::DenyNotAllowed { host } => ResultModel::DenyNotAllowed { host: host@ },
        }
    }
}

impl Clone for FilterResult {
    fn clone(&self) -> (r: FilterResult)
        ensures
            r@ == self@,
    {
        match self {
            FilterResult::Allow => FilterResult::Allow,
            FilterResult::DenyHost { host } => FilterResult::DenyHost { host: host.clone() },
            FilterResult::DenyLinkLocal { ip } => FilterResult::DenyLinkLocal { ip: *ip },
            FilterResult::DenyNotAllowed { host } => FilterResult::DenyNotAllowed {
                host: host.clone(),
            },
        }
    }
}

impl FilterResult {
    /// Whether the result is an allow decision
    #[must_use]
    pub fn is_allowed(&self) -> (r: bool)
        ensures
            r == (self@ is Allow),
    {
        matches!(self, FilterResult::Allow)
    }
}

/// Result of a filter check including resolved socket addresses.
///
/// When the filter allows a host, `resolved_addrs` contains the DNS-resolved
/// addresses. Callers MUST connect to these addresses (not re-resolve the
/// hostname) to prevent DNS rebinding TOCTOU attacks.
pub struct CheckResult {
    /// The filter decision
    pub result: FilterResult,
    /// DNS-resolved addresses (empty if denied or DNS failed)
    pub resolved_addrs: Vec<SocketAddress>,
}

/// The result of checking a host with its addresses against an allowlist.
pub open spec fn checked(
    entries: Multiset<Seq<char>>,
    host: Seq<char>,
    ips: Seq<IpAddress>,
) -> ResultModel {
    let lower = text::lowercase(host);
    if is_metadata_host(lower) {
        ResultModel::DenyHost { host }
    } else if has_link_local(ips) {
        ResultModel::DenyLinkLocal { ip: ips[choose|i: int| is_first_link_local(ips, i)] }
    } else if list_permits(entries, lower) {
        ResultModel::Allow
    } else {
        ResultModel::DenyNotAllowed { host }
    }
}

// ---------------------------------------------------------------------------
// Filter
// ---------------------------------------------------------------------------

/// What to ask of the interactive policy before a check is concluded.
#[derive(Debug, Clone, Copy, PartialEq, Eq, Structural)]
pub enum Consult {
    /// Nothing: the result stands.
    Nothing,
    /// A decision about the host, with a prompt where none is stored.
    Decision,
    /// Only what is stored about the host.
    Stored,
}

/// What the interactive policy replied.
#[derive(Debug, Clone, Copy, PartialEq, Eq, Structural)]
pub enum Reply {
    /// It was not asked.
    Nothing,
    /// It decided.
    Decided(PromptDecision),
    /// It could not decide.
    Failed,
    /// What it has stored.
    Stored(Option<PermanentDecision>),
}

/// A check that waits for the interactive policy.
pub struct HostCheck {
    host: String,
    result: FilterResult,
    resolved: Vec<SocketAddress>,
    consult: Consult,
}

/// A filter that wraps `HostFilter`.
///
/// In interactive mode, hosts that the filter does not allow, and hosts that it
/// allows only for want of an allowlist entry, are escalated to the interactive
/// policy. Cloud-metadata denies and link-local IP blocks remain absolute and
/// are NEVER promptable.
#[derive(Debug)]
pub struct ProxyFilter {
    inner: HostFilter,
    interactive: bool,
    /// Lowercased explicit allowlist hosts. Used by interactive mode to
    /// short-circuit the prompt for hosts the profile already trusts, even
    /// when the inner `HostFilter` was built in "allow-all" mode (empty
    /// allowlist). Entries starting with `*` are treated as suffix patterns.
    explicit_allow: Vec<String>,
}

/// What a filter is set to.
pub struct FilterModel {
    /// The allowlist, lowercased.
    pub allow: Seq<Seq<char>>,
    pub interactive: bool,
}

/// Whether an entry names a lowercased host explicitly: a wildcard names its
/// base and everything below it, any other entry names itself.
pub open spec fn names(entry: Seq<char>, lower: Seq<char>) -> bool {
    if entry.len() > 0 && entry.first() == '*' {
        host::covers(text::strip_start(entry.drop_first(), '.'), lower)
    } else {
        lower == entry
    }
}

impl FilterModel {
    /// Whether the allowlist names a host.
    pub open spec fn explicitly_allows(self, host: Seq<char>) -> bool {
        exists|i: int|
            0 <= i < self.allow.len() && names(#[trigger] self.allow[i], text::lowercase(host))
    }

    /// The result for a host and its addresses without the interactive policy.
    pub open spec fn check(self, host: Seq<char>, ips: Seq<IpAddress>) -> ResultModel {
        checked(self.allow.to_multiset(), host, ips)
    }

    /// What to ask of the interactive policy about a host with a result. An
    /// absolute deny asks nothing; a host that the allowlist names asks only
    /// what is stored.
    pub open spec fn consults(self, host: Seq<char>, result: ResultModel) -> Consult {
        if !self.interactive {
            Consult::Nothing
        } else {
            match result {
                ResultModel::DenyNotAllowed { .. } => Consult::Decision,
                ResultModel::Allow => if self.explicitly_allows(host) {
                    Consult::Stored
                } else {
                    Consult::Decision
                },
                ResultModel::DenyHost { .. } => Consult::Nothing,
                ResultModel::DenyLinkLocal { .. } => Consult::Nothing,
            }
        }
    }
}

/// The result once the interactive policy has replied. A decision replaces the
/// result, a stored deny revokes it, and anything else lets it stand.
pub open spec fn concluded(
    host: Seq<char>,
    result: ResultModel,
    consult: Consult,
    reply: Reply,
) -> ResultModel {
    match (consult, reply) {
        (Consult::Decision, Reply::Decided(decision)) => if decision.allows() {
            ResultModel::Allow
        } else {
            ResultModel::DenyNotAllowed { host }
        },
        (Consult::Stored, Reply::Stored(Some(PermanentDecision::Deny))) =>
            ResultModel::DenyNotAllowed { host },
        _ => result,
    }
}

/// The addresses of a list of socket addresses.
pub open spec fn ips_of(resolved: Seq<SocketAddress>) -> Seq<IpAddress> {
    resolved.map_values(|a: SocketAddress| a.ip)
}

impl View for ProxyFilter {
    type V = FilterModel;

    closed spec fn view(&self) -> FilterModel {
        FilterModel { allow: text::texts(self.explicit_allow@), interactive: self.interactive }
    }
}

impl HostCheck {
    /// The host that is checked.
    pub closed spec fn host(&self) -> Seq<char> {
        self.host@
    }

    /// The result so far.
    pub closed spec fn result(&self) -> ResultModel {
        self.result@
    }

    /// The addresses the host resolved to.
    pub closed spec fn resolved(&self) -> Seq<SocketAddress> {
        self.resolved@
    }

    /// What to ask of the interactive policy.
    pub closed spec fn consulting(&self) -> Consult {
        self.consult
    }

    /// What to ask of the interactive policy before this is concluded.
    #[must_use]
    pub fn consult(&self) -> (r: Consult)
        ensures
            r == self.consulting(),
    {
        self.consult
    }

    /// Concludes the check with what the interactive policy replied. Only an
    /// allowed host keeps its addresses.
    #[must_use]
    pub fn conclude(self, reply: Reply) -> (r: CheckResult)
        ensures
            r.result@ == concluded(self.host(), self.result(), self.consulting(), reply),
            self.consulting() == Consult::Decision ==> (reply matches Reply::Decided(decision) ==> (
            r.result@ is Allow) == (decision is AllowOnce || decision is AllowPermanentHost
                || decision is AllowPermanentSuffix)),
            r.resolved_addrs@ == (if r.result@ is Allow {
                self.resolved()
            } else {
                Seq::<SocketAddress>::empty()
            }),
    {
        let HostCheck { host, result, resolved, consult } = self;
        let result = match (consult, reply) {
            (Consult::Decision, Reply::Decided(decision)) => {
                if decision.is_allow() {
                    FilterResult::Allow
                } else {
                    FilterResult::DenyNotAllowed { host }
                }
            },
            (Consult::Stored, Reply::Stored(Some(PermanentDecision::Deny))) => {
                FilterResult::DenyNotAllowed { host }
            },
            _ => result,
        };
        let resolved_addrs = if result.is_allowed() {
            resolved
        } else {
            Vec::new()
        };
        CheckResult { result, resolved_addrs }
    }
}

impl Clone for ProxyFilter {
    fn clone(&self) -> (r: ProxyFilter)
        ensures
            r@ == self@,
    {
        proof {
            use_type_invariant(self);
        }
        let explicit_allow = text::clone_strings(&self.explicit_allow);
        ProxyFilter {
            inner: host_filter_clone(&self.inner),
            interactive: self.interactive,
            explicit_allow,
        }
    }
}

impl ProxyFilter {
    /// The inner filter holds the same allowlist.
    #[verifier::type_invariant]
    spec fn holds_allowlist(self) -> bool {
        allowlist(self.inner) == text::texts(self.explicit_allow@).to_multiset()
    }

    /// Create a new proxy filter with the given allowed hosts.
    #[must_use]
    pub fn new(allowed_hosts: &[String]) -> (r: Self)
        ensures
            r@.allow == lowercased(text::texts(allowed_hosts@)),
            !r@.interactive,
    {
        let inner = host_filter_new(allowed_hosts);
        let mut explicit_allow: Vec<String> = Vec::new();
        let ghost wanted = lowercased(text::texts(allowed_hosts@));
        let mut i: usize = 0;
        while i < allowed_hosts.len()
            invariant
                i <= allowed_hosts@.len(),
                wanted == lowercased(text::texts(allowed_hosts@)),
                text::texts(explicit_allow@) =~= wanted.take(i as int),
            decreases allowed_hosts@.len() - i,
        {
            let ghost before = text::texts(explicit_allow@);
            explicit_allow.push(allowed_hosts[i].as_str().to_lowercase());
            assert(text::texts(explicit_allow@) =~= before.push(wanted[i as int]));
            i += 1;
        }
        assert(wanted.take(wanted.len() as int) =~= wanted);
        ProxyFilter { inner, interactive: false, explicit_allow }
    }

    /// Create a filter that allows all hosts (except cloud metadata).
    #[must_use]
    pub fn allow_all() -> (r: Self)
        ensures
            r@.allow == Seq::<Seq<char>>::empty(),
            !r@.interactive,
    {
        let explicit_allow: Vec<String> = Vec::new();
        proof {
            broadcast use vstd::seq_lib::group_to_multiset_ensures;

            let allow = text::texts(explicit_allow@);
            assert(allow =~= Seq::<Seq<char>>::empty());
            vstd::multiset::lemma_multiset_empty_len(allow.to_multiset());
            assert(allow.to_multiset() =~= Multiset::<Seq<char>>::empty());
        }
        ProxyFilter { inner: host_filter_allow_all(), interactive: false, explicit_allow }
    }

    /// Switch to interactive mode. When set, the filter consults the
    /// interactive policy about any host not in `explicit_allow` (on top of
    /// cloud metadata denies and link-local IP blocks, which remain absolute).
    #[must_use]
    pub fn with_interactive(self) -> (r: Self)
        ensures
            r@.allow == self@.allow,
            r@.interactive,
    {
        proof {
            use_type_invariant(&self);
        }
        ProxyFilter {
            inner: self.inner,
            interactive: true,
            explicit_allow: self.explicit_allow,
        }
    }

    /// Whether interactive prompting is active.
    #[must_use]
    pub fn has_interactive(&self) -> (r: bool)
        ensures
            r == self@.interactive,
    {
        self.interactive
    }

    /// Check whether `host` matches the explicit allowlist (exact host or
    /// `*.suffix` pattern). Lowercase comparison.
    #[must_use]
    pub fn is_explicitly_allowed(&self, host: &str) -> (r: bool)
        ensures
            r == self@.explicitly_allows(host@),
    {
        let lower = host.to_lowercase();
        let ghost key = text::lowercase(host@);
        let ghost allow = self@.allow;
        let mut i: usize = 0;
        while i < self.explicit_allow.len()
            invariant
                i <= self.explicit_allow@.len(),
                key == text::lowercase(host@),
                lower@ == key,
                allow == text::texts(self.explicit_allow@),
                allow == self@.allow,
                forall|j: int| 0 <= j < i ==> !names(#[trigger] allow[j], key),
            decreases self.explicit_allow@.len() - i,
        {
            let pattern = self.explicit_allow[i].as_str();
            assert(allow[i as int] == pattern@);
            let chars = text::to_chars(pattern);
            if chars.len() > 0 && chars[0] == '*' {
                let suffix = text::from_chars(&chars, 1, chars.len());
                let base = text::trim_start_char(suffix.as_str(), '.');
                if host::is_covered(base.as_str(), lower.as_str()) {
                    assert(names(allow[i as int], key));
                    return true;
                }
            } else if text::same_text(lower.as_str(), pattern) {
                assert(names(allow[i as int], key));
                return true;
            }
            i += 1;
        }
        false
    }

    /// Check a host with pre-resolved IPs (no DNS lookup).
    #[must_use]
    pub fn check_host_with_ips(&self, host: &str, resolved_ips: &[IpAddress]) -> (r: FilterResult)
        ensures
            r@ == self@.check(host@, resolved_ips@),
    {
        proof {
            use_type_invariant(self);
        }
        match host_filter_check(&self.inner, host, resolved_ips) {
            HostVerdict::Allow => FilterResult::Allow,
            HostVerdict::DenyHost(denied) => FilterResult::DenyHost { host: denied },
            HostVerdict::DenyNotAllowed(denied) => FilterResult::DenyNotAllowed {
                host: denied,
            },
            HostVerdict::DenyLinkLocal => {
                let mut i: usize = 0;
                while i < resolved_ips.len() && !resolved_ips[i].is_link_local()
                    invariant
                        i <= resolved_ips@.len(),
                        forall|j: int| 0 <= j < i ==> !(#[trigger] resolved_ips@[j]).link_local(),
                    decreases resolved_ips@.len() - i,
                {
                    i += 1;
                }
                proof {
                    let k = choose|k: int|
                        0 <= k < resolved_ips@.len() && (#[trigger] resolved_ips@[k]).link_local();
                    assert(i < resolved_ips@.len());
                    assert(is_first_link_local(resolved_ips@, i as int));
                    let first = choose|f: int| is_first_link_local(resolved_ips@, f);
                    assert(is_first_link_local(resolved_ips@, first));
                    assert(resolved_ips@[first].link_local());
                    assert(first == i);
                }
                FilterResult::DenyLinkLocal { ip: resolved_ips[i] }
            },
        }
    }

    /// Check a host against the filter, with the addresses it resolved to.
    ///
    /// If any resolved IP is link-local, the request is blocked. Where DNS
    /// resolution failed there are no addresses, and the host name is checked
    /// all the same.
    ///
    /// The check says what to ask of the interactive policy, and is concluded
    /// with its reply. Callers MUST use the addresses of the concluded check to
    /// connect to the upstream instead of re-resolving the hostname,
    /// eliminating the DNS rebinding TOCTOU window.
    #[must_use]
    pub fn check_host(&self, host: &str, resolved: Vec<SocketAddress>) -> (r: HostCheck)
        ensures
            r.host() == host@,
            r.resolved() == resolved@,
            r.result() == self@.check(host@, ips_of(resolved@)),
            r.consulting() == self@.consults(host@, r.result()),
    {
        let mut ips: Vec<IpAddress> = Vec::new();
        let mut i: usize = 0;
        while i < resolved.len()
            invariant
                i <= resolved@.len(),
                ips@ =~= ips_of(resolved@.take(i as int)),
            decreases resolved@.len() - i,
        {
            ips.push(resolved[i].ip);
            i += 1;
        }
        assert(resolved@.take(resolved@.len() as int) =~= resolved@);
        let result = self.check_host_with_ips(host, ips.as_slice());
        let consult = if !self.interactive {
            Consult::Nothing
        } else {
            match &result {
                FilterResult::DenyNotAllowed { .. } => Consult::Decision,
                FilterResult::Allow => {
                    if self.is_explicitly_allowed(host) {
                        Consult::Stored
                    } else {
                        Consult::Decision
                    }
                },
                FilterResult::DenyHost { .. } | FilterResult::DenyLinkLocal { .. } => Consult::Nothing,
            }
        };
        HostCheck { host: host.to_owned(), result, resolved, consult }
    }

    /// Number of allowed hosts configured.
    #[must_use]
    pub fn allowed_count(&self) -> (r: usize)
        ensures
            r == self@.allow.len(),
    {
        proof {
            broadcast use vstd::seq_lib::group_to_multiset_ensures;

            use_type_invariant(self);
            assert(self@.allow.to_multiset().len() == self@.allow.len());
        }
        host_filter_allowed_count(&self.inner)
    }
}

} // verus!
