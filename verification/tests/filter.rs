//! The host filter, with and without the interactive policy.

use nono_proxy::decision::{PermanentDecision, PromptDecision};
use nono_proxy::filter::{
    CheckResult, Consult, FilterResult, IpAddress, ProxyFilter, Reply, SocketAddress,
};

const PUBLIC: IpAddress = IpAddress::V4(104, 18, 7, 96);

fn list(hosts: &[&str]) -> Vec<String> {
    hosts.iter().map(|h| h.to_string()).collect()
}

fn socket(ip: IpAddress) -> SocketAddress {
    SocketAddress {
        ip,
        port: 443,
        flowinfo: 0,
        scope_id: 0,
    }
}

#[test]
fn test_proxy_filter_delegates_to_host_filter() {
    let filter = ProxyFilter::new(&["api.openai.com".to_string()]);
    let public_ip = vec![IpAddress::V4(104, 18, 7, 96)];

    let result = filter.check_host_with_ips("api.openai.com", &public_ip);
    assert!(result.is_allowed());

    let result = filter.check_host_with_ips("evil.com", &public_ip);
    assert!(!result.is_allowed());
}

#[test]
fn test_proxy_filter_allow_all() {
    let filter = ProxyFilter::allow_all();
    let public_ip = vec![IpAddress::V4(104, 18, 7, 96)];
    let result = filter.check_host_with_ips("anything.com", &public_ip);
    assert!(result.is_allowed());
}

#[test]
fn test_proxy_filter_allows_private_networks() {
    let filter = ProxyFilter::allow_all();
    let private_ip = vec![IpAddress::V4(10, 0, 0, 1)];
    let result = filter.check_host_with_ips("corp.internal", &private_ip);
    assert!(result.is_allowed());
}

#[test]
fn test_proxy_filter_denies_link_local() {
    let filter = ProxyFilter::allow_all();
    let link_local = vec![IpAddress::V4(169, 254, 169, 254)];
    let result = filter.check_host_with_ips("evil.com", &link_local);
    assert!(!result.is_allowed());
}

#[test]
fn denied_address_is_the_first_link_local_one() {
    let filter = ProxyFilter::allow_all();
    let ips = [
        PUBLIC,
        IpAddress::V4(169, 254, 1, 2),
        IpAddress::V4(169, 254, 169, 254),
    ];
    match filter.check_host_with_ips("evil.com", &ips) {
        FilterResult::DenyLinkLocal { ip } => assert_eq!(ip, IpAddress::V4(169, 254, 1, 2)),
        _ => panic!("a link-local address is denied"),
    }
}

#[test]
fn link_local_ranges() {
    let filter = ProxyFilter::allow_all();
    let cases = [
        (IpAddress::V4(169, 254, 0, 0), true),
        (IpAddress::V4(169, 253, 255, 255), false),
        (IpAddress::V4(169, 255, 0, 0), false),
        (IpAddress::V6(0xfe80, 0, 0, 0, 0, 0, 0, 1), true),
        (IpAddress::V6(0xfebf, 0xffff, 0, 0, 0, 0, 0, 1), true),
        (IpAddress::V6(0xfec0, 0, 0, 0, 0, 0, 0, 1), false),
        (IpAddress::V6(0xfe7f, 0, 0, 0, 0, 0, 0, 1), false),
        (IpAddress::V6(0, 0, 0, 0, 0, 0xffff, 0xa9fe, 0xa9fe), true),
        (IpAddress::V6(0, 0, 0, 0, 0, 0xffff, 0x0a00, 0x0001), false),
        (IpAddress::V6(0, 0, 0, 0, 0, 0, 0xa9fe, 0xa9fe), false),
    ];
    for (ip, link_local) in cases {
        assert_eq!(ip.is_link_local(), link_local);
        assert_eq!(!filter.check_host_with_ips("a.example", &[ip]).is_allowed(), link_local);
    }
}

#[test]
fn metadata_hosts_are_denied_whatever_the_allowlist() {
    for host in ["169.254.169.254", "metadata.google.internal", "Metadata.Azure.Internal"] {
        let filter = ProxyFilter::new(&list(&[host, "*"]));
        match filter.check_host_with_ips(host, &[PUBLIC]) {
            FilterResult::DenyHost { host: denied } => assert_eq!(denied, host),
            _ => panic!("metadata hosts are denied"),
        }
    }
}

#[test]
fn unknown_host_is_reported_as_it_was_given() {
    let filter = ProxyFilter::new(&list(&["api.openai.com"]));
    match filter.check_host_with_ips("Evil.com", &[PUBLIC]) {
        FilterResult::DenyNotAllowed { host } => assert_eq!(host, "Evil.com"),
        _ => panic!("the host is not in the allowlist"),
    }
}

#[test]
fn wildcards_permit_what_lies_below() {
    let filter = ProxyFilter::new(&list(&["*.Example.com", "exact.org"]));
    assert_eq!(filter.allowed_count(), 2);
    assert!(filter.check_host_with_ips("API.example.com", &[PUBLIC]).is_allowed());
    assert!(filter.check_host_with_ips("EXACT.org", &[PUBLIC]).is_allowed());
    assert!(!filter.check_host_with_ips("example.com", &[PUBLIC]).is_allowed());
    assert!(!filter.check_host_with_ips("notexample.com", &[PUBLIC]).is_allowed());
    assert!(!filter.check_host_with_ips("sub.exact.org", &[PUBLIC]).is_allowed());
}

#[test]
fn empty_allowlist_counts_nothing_and_permits_all() {
    assert_eq!(ProxyFilter::allow_all().allowed_count(), 0);
    let filter = ProxyFilter::new(&[]);
    assert_eq!(filter.allowed_count(), 0);
    assert!(filter.check_host_with_ips("anything.example", &[]).is_allowed());
}

#[test]
fn explicit_allowlist_names_hosts_and_bases() {
    let filter = ProxyFilter::new(&list(&["*.Example.com", "exact.org"]));
    assert!(filter.is_explicitly_allowed("example.com"));
    assert!(filter.is_explicitly_allowed("a.b.EXAMPLE.com"));
    assert!(filter.is_explicitly_allowed("Exact.org"));
    assert!(!filter.is_explicitly_allowed("notexample.com"));
    assert!(!filter.is_explicitly_allowed("sub.exact.org"));
    assert!(!ProxyFilter::allow_all().is_explicitly_allowed("exact.org"));
}

#[test]
fn nothing_is_asked_outside_interactive_mode() {
    let filter = ProxyFilter::new(&list(&["a.example"]));
    assert!(!filter.has_interactive());
    let check = filter.check_host("b.example", vec![socket(PUBLIC)]);
    assert_eq!(check.consult(), Consult::Nothing);
    let CheckResult { result, resolved_addrs } = check.conclude(Reply::Nothing);
    assert!(!result.is_allowed());
    assert!(resolved_addrs.is_empty());
}

#[test]
fn allowed_host_keeps_its_addresses() {
    let filter = ProxyFilter::new(&list(&["a.example"]));
    let addrs = vec![socket(PUBLIC), socket(IpAddress::V6(0x2001, 0xdb8, 0, 0, 0, 0, 0, 1))];
    let concluded = filter.check_host("a.example", addrs.clone()).conclude(Reply::Nothing);
    assert!(concluded.result.is_allowed());
    assert_eq!(concluded.resolved_addrs, addrs);
}

#[test]
fn unknown_host_is_escalated() {
    let filter = ProxyFilter::new(&list(&["a.example"])).with_interactive();
    assert!(filter.has_interactive());
    let check = |reply| {
        let check = filter.check_host("b.example", vec![socket(PUBLIC)]);
        assert_eq!(check.consult(), Consult::Decision);
        check.conclude(reply)
    };
    let allowed = check(Reply::Decided(PromptDecision::AllowOnce));
    assert!(allowed.result.is_allowed());
    assert_eq!(allowed.resolved_addrs, vec![socket(PUBLIC)]);
    let denied = check(Reply::Decided(PromptDecision::DenyOnce));
    assert!(matches!(denied.result, FilterResult::DenyNotAllowed { .. }));
    assert!(denied.resolved_addrs.is_empty());
    // Without a decision the result of the allowlist stands.
    assert!(!check(Reply::Failed).result.is_allowed());
}

#[test]
fn host_allowed_for_want_of_an_allowlist_is_escalated() {
    let filter = ProxyFilter::allow_all().with_interactive();
    let check = filter.check_host("b.example", vec![socket(PUBLIC)]);
    assert_eq!(check.consult(), Consult::Decision);
    let denied = check.conclude(Reply::Decided(PromptDecision::DenyPermanentHost));
    match denied.result {
        FilterResult::DenyNotAllowed { host } => assert_eq!(host, "b.example"),
        _ => panic!("the decision is enforced"),
    }
    let failed = filter.check_host("b.example", vec![socket(PUBLIC)]).conclude(Reply::Failed);
    assert!(failed.result.is_allowed());
}

#[test]
fn stored_deny_revokes_an_allowlisted_host() {
    let filter = ProxyFilter::new(&list(&["a.example"])).with_interactive();
    let check = |stored| {
        let check = filter.check_host("a.example", vec![socket(PUBLIC)]);
        assert_eq!(check.consult(), Consult::Stored);
        check.conclude(Reply::Stored(stored)).result.is_allowed()
    };
    assert!(!check(Some(PermanentDecision::Deny)));
    assert!(check(Some(PermanentDecision::Allow)));
    assert!(check(None));
}

#[test]
fn absolute_denies_are_never_promptable() {
    let filter = ProxyFilter::allow_all().with_interactive();
    for (host, ip) in [
        ("metadata.google.internal", PUBLIC),
        ("evil.example", IpAddress::V4(169, 254, 169, 254)),
    ] {
        let check = filter.check_host(host, vec![socket(ip)]);
        assert_eq!(check.consult(), Consult::Nothing);
        let concluded = check.conclude(Reply::Decided(PromptDecision::AllowPermanentHost));
        assert!(!concluded.result.is_allowed());
        assert!(concluded.resolved_addrs.is_empty());
    }
}

#[test]
fn failed_resolution_still_checks_the_name() {
    let filter = ProxyFilter::new(&list(&["a.example"]));
    assert!(filter.check_host("a.example", vec![]).conclude(Reply::Nothing).result.is_allowed());
    let denied = filter
        .check_host("169.254.169.254", vec![])
        .conclude(Reply::Nothing);
    assert!(matches!(denied.result, FilterResult::DenyHost { .. }));
}

#[test]
fn cloned_filter_checks_alike() {
    let filter = ProxyFilter::new(&list(&["a.example", "*.b.example"])).with_interactive();
    let clone = filter.clone();
    assert!(clone.has_interactive());
    assert_eq!(clone.allowed_count(), 2);
    for host in ["a.example", "x.b.example", "c.example", "169.254.169.254"] {
        let result = filter.check_host_with_ips(host, &[PUBLIC]);
        let again = clone.check_host_with_ips(host, &[PUBLIC]);
        assert_eq!(format!("{:?}", result.clone()), format!("{:?}", again));
    }
}
