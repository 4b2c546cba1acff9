//! What holds of the table of intercepts across its operations.

use vstd::prelude::*;

use crate::addr::IpAddr;
use crate::config::{Service, ServiceEvent};
use crate::resolve::{EntryState, Flow, ResolverState, RuleState, WildcardState};

verus! {

/// A flow belongs to the service of the first entry, in the table's order, that matches it.
pub proof fn law_first_match_wins(s: ResolverState, f: Flow, i: int)
    requires
        0 <= i < s.entries.len(),
        s.entries[i].matches(f),
        forall|j: int| 0 <= j < i ==> !(#[trigger] s.entries[j]).matches(f),
    ensures
        s.lookup(f) == Some(s.entries[i].rule),
{
    lemma_first_entry_is(s.entries, f, i);
}

proof fn lemma_first_entry_is(entries: Seq<EntryState>, f: Flow, i: int)
    requires
        0 <= i < entries.len(),
        entries[i].matches(f),
        forall|j: int| 0 <= j < i ==> !(#[trigger] entries[j]).matches(f),
    ensures
        crate::resolve::first_entry(entries, f) == Some(entries[i]),
    decreases entries.len(),
{
    let rest = entries.drop_last();
    if i < rest.len() {
        lemma_first_entry_is(rest, f, i);
    } else {
        lemma_no_entry(rest, f);
    }
}

pub proof fn lemma_no_entry(entries: Seq<EntryState>, f: Flow)
    requires
        forall|j: int| 0 <= j < entries.len() ==> !(#[trigger] entries[j]).matches(f),
    ensures
        crate::resolve::first_entry(entries, f) is None,
    decreases entries.len(),
{
    if entries.len() > 0 {
        lemma_no_entry(entries.drop_last(), f);
    }
}

pub proof fn lemma_found_entry(entries: Seq<EntryState>, f: Flow)
    ensures
        match crate::resolve::first_entry(entries, f) {
            Some(e) => entries.contains(e) && e.matches(f),
            None => forall|j: int| 0 <= j < entries.len() ==> !(#[trigger] entries[j]).matches(f),
        },
    decreases entries.len(),
{
    if entries.len() > 0 {
        let rest = entries.drop_last();
        lemma_found_entry(rest, f);
        match crate::resolve::first_entry(rest, f) {
            Some(e) => {
                let j = choose|j: int| 0 <= j < rest.len() && rest[j] == e;
                assert(entries[j] == e);
            },
            None => {
                assert(entries[entries.len() - 1] == entries.last());
                assert forall|j: int| 0 <= j < entries.len() - 1 implies !(
                #[trigger] entries[j]).matches(f) by {
                    assert(rest[j] == entries[j]);
                }
            },
        }
    }
}

pub proof fn lemma_found_claim(wildcards: Seq<WildcardState>, domain: Seq<char>, f: Flow)
    ensures
        match crate::resolve::first_claim(wildcards, domain, f) {
            Some(w) => wildcards.contains(w) && w.claims(domain, f),
            None => forall|j: int|
                0 <= j < wildcards.len() ==> !(#[trigger] wildcards[j]).claims(domain, f),
        },
    decreases wildcards.len(),
{
    if wildcards.len() > 0 {
        let rest = wildcards.drop_last();
        lemma_found_claim(rest, domain, f);
        match crate::resolve::first_claim(rest, domain, f) {
            Some(w) => {
                let j = choose|j: int| 0 <= j < rest.len() && rest[j] == w;
                assert(wildcards[j] == w);
            },
            None => {
                assert(wildcards[wildcards.len() - 1] == wildcards.last());
                assert forall|j: int| 0 <= j < wildcards.len() - 1 implies !(
                #[trigger] wildcards[j]).claims(domain, f) by {
                    assert(rest[j] == wildcards[j]);
                }
            },
        }
    }
}

pub proof fn lemma_found_domain(wildcards: Seq<WildcardState>, domain: Seq<char>)
    ensures
        crate::resolve::first_of_domain(wildcards, domain) matches Some(w) ==> wildcards.contains(w)
            && w.suffix == domain,
    decreases wildcards.len(),
{
    if wildcards.len() > 0 {
        let rest = wildcards.drop_last();
        lemma_found_domain(rest, domain);
        match crate::resolve::first_of_domain(rest, domain) {
            Some(w) => {
                let j = choose|j: int| 0 <= j < rest.len() && rest[j] == w;
                assert(wildcards[j] == w);
            },
            None => {
                assert(wildcards[wildcards.len() - 1] == wildcards.last());
            },
        }
    }
}

/// An entry that matches a flow by its destination address is preferred to every wildcard entry.
pub proof fn law_literal_beats_wildcard(s: ResolverState, f: Flow, i: int)
    requires
        0 <= i < s.entries.len(),
        s.entries[i].matches(f),
    ensures
        exists|j: int|
            0 <= j <= i && (#[trigger] s.entries[j]).matches(f) && s.lookup(f) == Some(
                s.entries[j].rule,
            ),
    decreases i,
{
    if forall|j: int| 0 <= j < i ==> !(#[trigger] s.entries[j]).matches(f) {
        law_first_match_wins(s, f, i);
    } else {
        let k = choose|k: int| 0 <= k < i && (#[trigger] s.entries[k]).matches(f);
        law_literal_beats_wildcard(s, f, k);
    }
}

/// A flow belongs to a service only if some entry of that service allows its protocol, port and
/// source.
pub proof fn law_never_widens(s: ResolverState, f: Flow)
    ensures
        s.lookup(f) matches Some(rule) ==> rule.allows(f) && ((exists|i: int|
            0 <= i < s.entries.len() && (#[trigger] s.entries[i]).rule == rule) || (exists|j: int|
            0 <= j < s.wildcards.len() && (#[trigger] s.wildcards[j]).rule == rule)),
{
    lemma_found_entry(s.entries, f);
    if let IpAddr::V4(ip) = f.dst_ip {
        if let Some(domain) = s.dns.reverse_domain(ip) {
            lemma_found_claim(s.wildcards, domain, f);
            if crate::resolve::first_entry(s.entries, f) is None {
                if let Some(w) = crate::resolve::first_claim(s.wildcards, domain, f) {
                    let j = choose|j: int| 0 <= j < s.wildcards.len() && s.wildcards[j] == w;
                    assert(s.wildcards[j].rule == w.rule);
                }
            }
        }
    }
    if let Some(e) = crate::resolve::first_entry(s.entries, f) {
        let i = choose|i: int| 0 <= i < s.entries.len() && s.entries[i] == e;
        assert(s.entries[i].rule == e.rule);
    }
}

/// Where no entry matches a flow, it belongs to nobody if its destination is an IPv6 address or is
/// not one that was handed out under a domain: a reserved address, or that of a host that a service
/// named.
pub proof fn law_fallback_needs_a_domain(s: ResolverState, f: Flow)
    requires
        forall|j: int| 0 <= j < s.entries.len() ==> !(#[trigger] s.entries[j]).matches(f),
    ensures
        f.dst_ip is V6 ==> s.lookup(f) is None,
        f.dst_ip matches IpAddr::V4(ip) ==> s.dns.reverse_domain(ip) is None ==> s.lookup(f) is None,
{
    lemma_no_entry(s.entries, f);
}

pub proof fn lemma_entries_without(entries: Seq<EntryState>, service: Seq<char>)
    ensures
        forall|i: int|
            0 <= i < crate::resolve::entries_without(entries, service).len() ==> (
            #[trigger] crate::resolve::entries_without(entries, service)[i]).rule.service != service
                && entries.contains(crate::resolve::entries_without(entries, service)[i]),
    decreases entries.len(),
{
    if entries.len() > 0 {
        let rest = entries.drop_last();
        lemma_entries_without(rest, service);
        let kept = crate::resolve::entries_without(entries, service);
        let before = crate::resolve::entries_without(rest, service);
        assert forall|i: int| 0 <= i < kept.len() implies (#[trigger] kept[i]).rule.service != service
            && entries.contains(kept[i]) by {
            if i < before.len() {
                assert(kept[i] == before[i]);
                let j = choose|j: int| 0 <= j < rest.len() && rest[j] == before[i];
                assert(entries[j] == kept[i]);
            } else {
                assert(entries[entries.len() - 1] == kept[i]);
            }
        }
    }
}

pub proof fn lemma_wildcards_without(wildcards: Seq<WildcardState>, service: Seq<char>)
    ensures
        forall|i: int|
            0 <= i < crate::resolve::wildcards_without(wildcards, service).len() ==> (
            #[trigger] crate::resolve::wildcards_without(wildcards, service)[i]).rule.service
                != service && wildcards.contains(
                crate::resolve::wildcards_without(wildcards, service)[i],
            ),
    decreases wildcards.len(),
{
    if wildcards.len() > 0 {
        let rest = wildcards.drop_last();
        lemma_wildcards_without(rest, service);
        let kept = crate::resolve::wildcards_without(wildcards, service);
        let before = crate::resolve::wildcards_without(rest, service);
        assert forall|i: int| 0 <= i < kept.len() implies (#[trigger] kept[i]).rule.service != service
            && wildcards.contains(kept[i]) by {
            if i < before.len() {
                assert(kept[i] == before[i]);
                let j = choose|j: int| 0 <= j < rest.len() && rest[j] == before[i];
                assert(wildcards[j] == kept[i]);
            } else {
                assert(wildcards[wildcards.len() - 1] == kept[i]);
            }
        }
    }
}

/// No flow belongs to a service that was taken out, and it resolves no domain.
pub proof fn law_removed_service_is_silent(
    s: ResolverState,
    service: Seq<char>,
    f: Flow,
    domain: Seq<char>,
)
    ensures
        s.without(service).lookup(f) matches Some(rule) ==> rule.service != service,
        s.without(service).proxy_service(domain) matches Some(rule) ==> rule.service != service,
        !s.without(service).installed.contains_key(service),
        s.without(service).routes_of(service).len() == 0,
{
    let after = s.without(service);
    lemma_entries_without(s.entries, service);
    lemma_wildcards_without(s.wildcards, service);
    lemma_found_entry(after.entries, f);
    if let IpAddr::V4(ip) = f.dst_ip {
        if let Some(d) = after.dns.reverse_domain(ip) {
            lemma_found_claim(after.wildcards, d, f);
        }
    }
    lemma_found_domain(after.wildcards, domain);
}

proof fn lemma_kept_entry(entries: Seq<EntryState>, service: Seq<char>, f: Flow)
    requires
        crate::resolve::first_entry(entries, f) matches Some(e) && e.rule.service != service,
    ensures
        crate::resolve::first_entry(crate::resolve::entries_without(entries, service), f)
            == crate::resolve::first_entry(entries, f),
    decreases entries.len(),
{
    let rest = entries.drop_last();
    let kept = crate::resolve::entries_without(rest, service);
    if crate::resolve::first_entry(rest, f) is Some {
        lemma_kept_entry(rest, service, f);
        assert(kept.push(entries.last()).drop_last() =~= kept);
    } else {
        lemma_no_entry_without(rest, service, f);
        assert(kept.push(entries.last()).drop_last() =~= kept);
        assert(kept.push(entries.last()).last() == entries.last());
    }
}

proof fn lemma_no_entry_without(entries: Seq<EntryState>, service: Seq<char>, f: Flow)
    requires
        crate::resolve::first_entry(entries, f) is None,
    ensures
        crate::resolve::first_entry(crate::resolve::entries_without(entries, service), f) is None,
    decreases entries.len(),
{
    if entries.len() > 0 {
        let rest = entries.drop_last();
        let kept = crate::resolve::entries_without(rest, service);
        lemma_no_entry_without(rest, service, f);
        assert(kept.push(entries.last()).drop_last() =~= kept);
        assert(kept.push(entries.last()).last() == entries.last());
    }
}

proof fn lemma_kept_claim(
    wildcards: Seq<WildcardState>,
    service: Seq<char>,
    domain: Seq<char>,
    f: Flow,
)
    requires
        crate::resolve::first_claim(wildcards, domain, f) matches Some(w) && w.rule.service
            != service,
    ensures
        crate::resolve::first_claim(
            crate::resolve::wildcards_without(wildcards, service),
            domain,
            f,
        ) == crate::resolve::first_claim(wildcards, domain, f),
    decreases wildcards.len(),
{
    let rest = wildcards.drop_last();
    let kept = crate::resolve::wildcards_without(rest, service);
    if crate::resolve::first_claim(rest, domain, f) is Some {
        lemma_kept_claim(rest, service, domain, f);
        assert(kept.push(wildcards.last()).drop_last() =~= kept);
    } else {
        lemma_no_claim_without(rest, service, domain, f);
        assert(kept.push(wildcards.last()).drop_last() =~= kept);
        assert(kept.push(wildcards.last()).last() == wildcards.last());
    }
}

proof fn lemma_no_claim_without(
    wildcards: Seq<WildcardState>,
    service: Seq<char>,
    domain: Seq<char>,
    f: Flow,
)
    requires
        crate::resolve::first_claim(wildcards, domain, f) is None,
    ensures
        crate::resolve::first_claim(
            crate::resolve::wildcards_without(wildcards, service),
            domain,
            f,
        ) is None,
    decreases wildcards.len(),
{
    if wildcards.len() > 0 {
        let rest = wildcards.drop_last();
        let kept = crate::resolve::wildcards_without(rest, service);
        lemma_no_claim_without(rest, service, domain, f);
        assert(kept.push(wildcards.last()).drop_last() =~= kept);
        assert(kept.push(wildcards.last()).last() == wildcards.last());
    }
}

/// A flow that belongs to one service by its destination address still does when another service is
/// taken out.
pub proof fn law_removal_spares_other_entries(s: ResolverState, service: Seq<char>, f: Flow)
    requires
        exists|j: int| 0 <= j < s.entries.len() && (#[trigger] s.entries[j]).matches(f),
        s.lookup(f) matches Some(rule) && rule.service != service,
    ensures
        s.without(service).lookup(f) == s.lookup(f),
{
    lemma_found_entry(s.entries, f);
    lemma_kept_entry(s.entries, service, f);
}

/// A flow that belongs to one service by the domain of its destination still does when another service
/// is taken out, as long as a service other than that one claims the domain.
pub proof fn law_removal_spares_shared_domains(
    s: ResolverState,
    service: Seq<char>,
    f: Flow,
    ip: u32,
    domain: Seq<char>,
    other: Seq<char>,
)
    requires
        s.dns.wf(),
        f.dst_ip == IpAddr::V4(ip),
        forall|j: int| 0 <= j < s.entries.len() ==> !(#[trigger] s.entries[j]).matches(f),
        s.dns.reverse_domain(ip) == Some(domain),
        s.dns.domains.contains_key(domain),
        s.dns.domains[domain].contains(other),
        other != service,
        s.lookup(f) matches Some(rule) && rule.service != service,
    ensures
        s.without(service).lookup(f) == s.lookup(f),
{
    lemma_no_entry(s.entries, f);
    lemma_no_entry_without(s.entries, service, f);
    lemma_found_claim(s.wildcards, domain, f);
    lemma_kept_claim(s.wildcards, service, domain, f);
    let after = s.dns.deregister(service);
    let n = s.dns.reverse(ip)->0;
    crate::dns::law_shared_claims_survive(s.dns, service, other);
    s.dns.lemma_deregister_wf(service);
    assert(s.dns.domains[domain].contains(other));
    assert(after.hosts.contains_key(n) && after.hosts[n].ip == ip);
    assert(after.reverse(ip) == Some(n)) by {
        let m = after.reverse(ip)->0;
        assert(after.hosts.contains_key(m) && after.hosts[m].ip == ip);
    }
}

/// Every entry, every wildcard entry and every claim on a name is that of a service whose configuration is
/// installed.
pub open spec fn owned(s: ResolverState) -> bool {
    &&& forall|i: int|
        0 <= i < s.entries.len() ==> s.installed.contains_key((#[trigger] s.entries[i]).rule.service)
    &&& forall|i: int|
        0 <= i < s.wildcards.len() ==> s.installed.contains_key(
            (#[trigger] s.wildcards[i]).rule.service,
        )
    &&& forall|n: Seq<char>, c: Seq<char>|
        s.dns.hosts.contains_key(n) && #[trigger] s.dns.hosts[n].claims.contains(c)
            ==> s.installed.contains_key(c)
    &&& forall|d: Seq<char>, c: Seq<char>|
        s.dns.domains.contains_key(d) && #[trigger] s.dns.domains[d].contains(c)
            ==> s.installed.contains_key(c)
}

/// A registration makes no claim but the service's.
proof fn lemma_register_claims(dns: crate::dns::DnsState, addr: Seq<char>, service: Seq<char>)
    ensures
        forall|n: Seq<char>, c: Seq<char>|
            dns.register(addr, service).0.hosts.contains_key(n) && #[trigger] dns.register(
                addr,
                service,
            ).0.hosts[n].claims.contains(c) ==> c == service || (dns.hosts.contains_key(n)
                && dns.hosts[n].claims.contains(c)),
        forall|d: Seq<char>, c: Seq<char>|
            dns.register(addr, service).0.domains.contains_key(d) && #[trigger] dns.register(
                addr,
                service,
            ).0.domains[d].contains(c) ==> c == service || (dns.domains.contains_key(d)
                && dns.domains[d].contains(c)),
{
    let after = dns.register(addr, service).0;
    assert forall|n: Seq<char>, c: Seq<char>|
        after.hosts.contains_key(n) && #[trigger] after.hosts[n].claims.contains(c) implies c == service
        || (dns.hosts.contains_key(n) && dns.hosts[n].claims.contains(c)) by {
        if let Some(crate::names::NameSpec::Host(h)) = crate::names::name_of(addr) {
            if n == h {
                assert(!Set::<Seq<char>>::empty().contains(c));
            }
        }
    }
    assert forall|d: Seq<char>, c: Seq<char>|
        after.domains.contains_key(d) && #[trigger] after.domains[d].contains(c) implies c == service || (
    dns.domains.contains_key(d) && dns.domains[d].contains(c)) by {
        if let Some(crate::names::NameSpec::Domain(own)) = crate::names::name_of(addr) {
            if d == own {
                assert(dns.claims_on(d).insert(service).contains(c));
            }
        }
    }
}

proof fn lemma_install_owned(
    s: ResolverState,
    cfg: crate::config::ConfigState,
    service: Seq<char>,
    n: nat,
)
    requires
        owned(s),
        s.installed.contains_key(service),
        n <= cfg.addresses.len(),
    ensures
        owned(s.install(cfg, service, n)),
        s.install(cfg, service, n).installed == s.installed,
    decreases n,
{
    if n > 0 {
        lemma_install_owned(s, cfg, service, (n - 1) as nat);
        let before = s.install(cfg, service, (n - 1) as nat);
        let after = s.install(cfg, service, n);
        let addr = cfg.addresses[n - 1];
        lemma_register_claims(before.dns, addr, service);
        assert(after.dns == before.dns || after.dns == before.dns.register(addr, service).0);
        assert forall|k: Seq<char>, c: Seq<char>|
            after.dns.hosts.contains_key(k) && #[trigger] after.dns.hosts[k].claims.contains(
                c,
            ) implies after.installed.contains_key(c) by {
            if c != service {
                assert(before.dns.hosts[k].claims.contains(c));
            }
        }
        assert forall|d: Seq<char>, c: Seq<char>|
            after.dns.domains.contains_key(d) && #[trigger] after.dns.domains[d].contains(
                c,
            ) implies after.installed.contains_key(c) by {
            if c != service {
                assert(before.dns.domains[d].contains(c));
            }
        }
        assert forall|i: int| 0 <= i < after.entries.len() implies after.installed.contains_key(
            (#[trigger] after.entries[i]).rule.service,
        ) by {
            if i < before.entries.len() {
                assert(after.entries[i] == before.entries[i]);
            }
        }
        assert forall|i: int| 0 <= i < after.wildcards.len() implies after.installed.contains_key(
            (#[trigger] after.wildcards[i]).rule.service,
        ) by {
            if i < before.wildcards.len() {
                assert(after.wildcards[i] == before.wildcards[i]);
            }
        }
    }
}

/// A flow never belongs to a service whose configuration is not installed: no change in the services
/// leaves an entry behind, or makes one for a service that is not installed.
pub proof fn law_only_installed_services_match(s: ResolverState, ev: &ServiceEvent, f: Flow)
    requires
        owned(s),
    ensures
        owned(s.apply(ev).0),
        s.lookup(f) matches Some(rule) ==> s.installed.contains_key(rule.service),
{
    law_never_widens(s, f);
    let svc = match *ev {
        ServiceEvent::Added(svc) => svc,
        ServiceEvent::Changed(svc) => svc,
        ServiceEvent::Removed(svc) => svc,
    };
    let name = svc.name@;
    lemma_entries_without(s.entries, name);
    lemma_wildcards_without(s.wildcards, name);
    let cleared = s.without(name);
    assert(owned(cleared)) by {
        assert forall|i: int| 0 <= i < cleared.entries.len() implies cleared.installed.contains_key(
            (#[trigger] cleared.entries[i]).rule.service,
        ) by {
            let j = choose|j: int| 0 <= j < s.entries.len() && s.entries[j] == cleared.entries[i];
            assert(s.installed.contains_key(s.entries[j].rule.service));
        }
        assert forall|i: int| 0 <= i < cleared.wildcards.len() implies cleared.installed.contains_key(
            (#[trigger] cleared.wildcards[i]).rule.service,
        ) by {
            let j = choose|j: int|
                0 <= j < s.wildcards.len() && s.wildcards[j] == cleared.wildcards[i];
            assert(s.installed.contains_key(s.wildcards[j].rule.service));
        }
        assert forall|n: Seq<char>, c: Seq<char>|
            cleared.dns.hosts.contains_key(n) && #[trigger] cleared.dns.hosts[n].claims.contains(
                c,
            ) implies cleared.installed.contains_key(c) by {
            assert(s.dns.hosts[n].claims.remove(name).contains(c));
            assert(s.dns.hosts[n].claims.contains(c));
        }
        assert forall|d: Seq<char>, c: Seq<char>|
            cleared.dns.domains.contains_key(d) && #[trigger] cleared.dns.domains[d].contains(
                c,
            ) implies cleared.installed.contains_key(c) by {
            assert(s.dns.domains[d].remove(name).contains(c));
            assert(s.dns.domains[d].contains(c));
        }
    }
    if svc.dials() && svc.intercept_index() != svc.configs@.len() {
        let c = svc.configs@[svc.intercept_index()];
        if let Ok(cfg) = c.intercept {
            let start = ResolverState {
                installed: cleared.installed.insert(
                    name,
                    crate::resolve::InstalledState {
                        raw: c.raw@,
                        routes: crate::config::literal_nets(cfg@.addresses),
                    },
                ),
                ..cleared
            };
            assert(owned(start));
            lemma_install_owned(start, cfg@, name, cfg@.addresses.len());
        }
    }
}

/// The same holds of a table without services over a registry without names, and a name query keeps it:
/// the address that it may hand out is claimed through its domain alone.
pub proof fn law_name_query_makes_no_owner(s: ResolverState, dns: crate::dns::DnsState, name: Seq<char>)
    requires
        owned(s),
        dns.hosts.dom() == Set::<Seq<char>>::empty(),
        dns.domains.dom() == Set::<Seq<char>>::empty(),
    ensures
        owned(crate::resolve::empty_table(dns)),
        owned(ResolverState { dns: s.dns.lookup(name).0, ..s }),
{
    assert forall|n: Seq<char>| !#[trigger] dns.hosts.contains_key(n) by {
        assert(!dns.hosts.dom().contains(n));
    }
    assert forall|d: Seq<char>| !#[trigger] dns.domains.contains_key(d) by {
        assert(!dns.domains.dom().contains(d));
    }
    let after = ResolverState { dns: s.dns.lookup(name).0, ..s };
    assert forall|n: Seq<char>, c: Seq<char>|
        after.dns.hosts.contains_key(n) && #[trigger] after.dns.hosts[n].claims.contains(c) implies
        after.installed.contains_key(c) by {
        assert(!Set::<Seq<char>>::empty().contains(c));
        assert(s.dns.hosts.contains_key(n) && s.dns.hosts[n].claims.contains(c));
    }
    assert(after.dns.domains == s.dns.domains);
    assert forall|d: Seq<char>, c: Seq<char>|
        after.dns.domains.contains_key(d) && #[trigger] after.dns.domains[d].contains(c) implies
        after.installed.contains_key(c) by {
        assert(s.dns.domains[d].contains(c));
    }
}

/// Whether a report of a service is to be installed: it may be dialled, and its configuration reads.
pub open spec fn installs(svc: &Service) -> bool {
    svc.dials() && svc.intercept_index() != svc.configs@.len()
        && svc.configs@[svc.intercept_index()].intercept is Ok
}

/// Whether the configuration of a service is the one that is installed for it.
pub open spec fn unchanged(s: ResolverState, svc: &Service) -> bool {
    s.installed.contains_key(svc.name@) && s.installed[svc.name@].raw
        == svc.configs@[svc.intercept_index()].raw@
}

/// When the flows of a service are to be killed. On a report, exactly when its configuration was
/// installed and is not kept; when it is gone, always.
pub proof fn law_kill_active(s: ResolverState, svc: Service)
    ensures
        s.apply(&ServiceEvent::Added(svc)).1.kill_active <==> s.installed.contains_key(svc.name@) && (
        !svc.dials() || (installs(&svc) && !unchanged(s, &svc))),
        s.apply(&ServiceEvent::Changed(svc)).1.kill_active <==> s.apply(
            &ServiceEvent::Added(svc),
        ).1.kill_active,
        s.apply(&ServiceEvent::Removed(svc)).1.kill_active,
{
}

/// A report that may be dialled but does not read, or whose configuration is the one installed, changes
/// nothing and moves no route.
pub proof fn law_keeps_what_it_has(s: ResolverState, svc: &Service)
    requires
        svc.dials(),
        !installs(svc) || unchanged(s, svc),
    ensures
        s.add(svc).0 == s,
        s.add(svc).1.removed.len() == 0,
        s.add(svc).1.added.len() == 0,
        !s.add(svc).1.kill_active,
{
}

/// An installation of addresses leaves the record of what is installed as it was.
pub proof fn lemma_install_keeps_installed(
    s: ResolverState,
    cfg: crate::config::ConfigState,
    service: Seq<char>,
    n: nat,
)
    requires
        n <= cfg.addresses.len(),
    ensures
        s.install(cfg, service, n).installed == s.installed,
    decreases n,
{
    if n > 0 {
        lemma_install_keeps_installed(s, cfg, service, (n - 1) as nat);
    }
}

/// The routes balance: what a change takes out is what the service had, and what it puts in is what the
/// service then has; a change that moves nothing leaves what it had. Other services keep theirs.
pub proof fn law_routes_balance(s: ResolverState, ev: &ServiceEvent, other: Seq<char>)
    ensures
        ({
            let svc = match *ev {
                ServiceEvent::Added(svc) => svc,
                ServiceEvent::Changed(svc) => svc,
                ServiceEvent::Removed(svc) => svc,
            };
            let (after, delta) = s.apply(ev);
            &&& (delta.removed == s.routes_of(svc.name@) && delta.added == after.routes_of(svc.name@))
                || (after == s && delta.removed.len() == 0 && delta.added.len() == 0)
            &&& other != svc.name@ ==> after.routes_of(other) == s.routes_of(other)
        }),
{
    let svc = match *ev {
        ServiceEvent::Added(svc) => svc,
        ServiceEvent::Changed(svc) => svc,
        ServiceEvent::Removed(svc) => svc,
    };
    let cleared = s.without(svc.name@);
    if installs(&svc) {
        let c = svc.configs@[svc.intercept_index()];
        let cfg = c.intercept->Ok_0;
        let start = ResolverState {
            installed: cleared.installed.insert(
                svc.name@,
                crate::resolve::InstalledState {
                    raw: c.raw@,
                    routes: crate::config::literal_nets(cfg@.addresses),
                },
            ),
            ..cleared
        };
        lemma_install_keeps_installed(start, cfg@, svc.name@, cfg@.addresses.len());
    }
}

/// A report that was applied is kept when it comes again.
pub proof fn law_repeated_report_changes_nothing(s: ResolverState, svc: &Service)
    requires
        installs(svc),
    ensures
        s.add(svc).0.add(svc).0 == s.add(svc).0,
        s.add(svc).0.add(svc).1.removed.len() == 0,
        s.add(svc).0.add(svc).1.added.len() == 0,
        !s.add(svc).0.add(svc).1.kill_active,
{
    let cleared = s.without(svc.name@);
    let c = svc.configs@[svc.intercept_index()];
    let cfg = c.intercept->Ok_0;
    let start = ResolverState {
        installed: cleared.installed.insert(
            svc.name@,
            crate::resolve::InstalledState {
                raw: c.raw@,
                routes: crate::config::literal_nets(cfg@.addresses),
            },
        ),
        ..cleared
    };
    lemma_install_keeps_installed(start, cfg@, svc.name@, cfg@.addresses.len());
}

/// A service that may not be dialled is never intercepted, whatever it was before.
pub proof fn law_no_dial_no_intercept(s: ResolverState, svc: &Service, f: Flow, domain: Seq<char>)
    requires
        !svc.dials(),
    ensures
        s.add(svc).0.lookup(f) matches Some(rule) ==> rule.service != svc.name@,
        s.add(svc).0.proxy_service(domain) matches Some(rule) ==> rule.service != svc.name@,
{
    law_removed_service_is_silent(s, svc.name@, f, domain);
}

pub proof fn lemma_rows_have(
    protocols: Seq<Seq<char>>,
    ranges: Seq<crate::config::PortRange>,
    p: int,
    r: int,
)
    requires
        0 <= p < protocols.len(),
        0 <= r < ranges.len(),
    ensures
        crate::resolve::rows(protocols, ranges).contains((protocols[p], ranges[r])),
    decreases protocols.len(),
{
    let rest = protocols.drop_last();
    let before = crate::resolve::rows(rest, ranges);
    let all = crate::resolve::rows(protocols, ranges);
    if p < rest.len() {
        lemma_rows_have(rest, ranges, p, r);
        let k = choose|k: int| 0 <= k < before.len() && before[k] == (protocols[p], ranges[r]);
        assert(all[k] == before[k]);
    } else {
        assert(all[before.len() + r] == (protocols[p], ranges[r]));
    }
}

/// What a configuration asks of a flow besides its destination address.
pub open spec fn configured(cfg: crate::config::ConfigState, f: Flow, p: int, r: int) -> bool {
    &&& 0 <= p < cfg.protocols.len()
    &&& cfg.protocols[p] == f.proto.text()
    &&& 0 <= r < cfg.port_ranges.len()
    &&& cfg.port_ranges[r].low <= f.dst_port <= cfg.port_ranges[r].high
    &&& crate::config::admits(
        crate::config::sources_of(cfg.allowed_source_addresses),
        f.src_ip,
    )
}

/// The rows of a configuration give a network an entry for every flow to it that they allow.
proof fn lemma_entries_for_match(
    cfg: crate::config::ConfigState,
    service: Seq<char>,
    cidr: crate::addr::IpNet,
    f: Flow,
    p: int,
    r: int,
)
    requires
        configured(cfg, f, p, r),
        cidr.covers(f.dst_ip),
    ensures
        exists|k: int|
            0 <= k < crate::resolve::entries_for(cfg, service, cidr).len() && (
            #[trigger] crate::resolve::entries_for(cfg, service, cidr)[k]).matches(f),
{
    lemma_rows_have(cfg.protocols, cfg.port_ranges, p, r);
    let rows = crate::resolve::rows(cfg.protocols, cfg.port_ranges);
    let k = choose|k: int| 0 <= k < rows.len() && rows[k] == (cfg.protocols[p], cfg.port_ranges[r]);
    assert(crate::resolve::entries_for(cfg, service, cidr)[k].matches(f));
}

/// Whether an entry of the table matches the flow.
pub open spec fn some_entry(s: ResolverState, f: Flow) -> bool {
    exists|j: int| 0 <= j < s.entries.len() && (#[trigger] s.entries[j]).matches(f)
}

pub proof fn lemma_install_one_grows(
    s: ResolverState,
    cfg: crate::config::ConfigState,
    service: Seq<char>,
    addr: Seq<char>,
    f: Flow,
)
    ensures
        some_entry(s, f) ==> some_entry(s.install_one(cfg, service, addr), f),
        s.dns.hosts.dom().subset_of(s.install_one(cfg, service, addr).dns.hosts.dom()),
        forall|h: Seq<char>| #[trigger]
            s.dns.hosts.contains_key(h) ==> s.install_one(cfg, service, addr).dns.hosts[h].ip
                == s.dns.hosts[h].ip,
{
    let after = s.install_one(cfg, service, addr);
    if some_entry(s, f) {
        let j = choose|j: int| 0 <= j < s.entries.len() && (#[trigger] s.entries[j]).matches(f);
        assert(after.entries[j] == s.entries[j]);
    }
}

proof fn lemma_new_entry_matches(
    s: ResolverState,
    before: Seq<EntryState>,
    added: Seq<EntryState>,
    f: Flow,
)
    requires
        s.entries == before + added,
        exists|k: int| 0 <= k < added.len() && (#[trigger] added[k]).matches(f),
    ensures
        some_entry(s, f),
{
    let k = choose|k: int| 0 <= k < added.len() && (#[trigger] added[k]).matches(f);
    assert(s.entries[before.len() + k] == added[k]);
}

proof fn lemma_install_literal(
    s: ResolverState,
    cfg: crate::config::ConfigState,
    service: Seq<char>,
    n: nat,
    f: Flow,
    a: int,
    p: int,
    r: int,
)
    requires
        0 <= a < n <= cfg.addresses.len(),
        configured(cfg, f, p, r),
        !crate::names::has_wildcard_mark(cfg.addresses[a]),
        crate::addr::net_text(cfg.addresses[a]) matches Some(cidr) && cidr.covers(f.dst_ip),
    ensures
        some_entry(s.install(cfg, service, n), f),
    decreases n,
{
    let before = s.install(cfg, service, (n - 1) as nat);
    if a < n - 1 {
        lemma_install_literal(s, cfg, service, (n - 1) as nat, f, a, p, r);
        lemma_install_one_grows(before, cfg, service, cfg.addresses[n - 1], f);
    } else {
        let cidr = crate::addr::net_text(cfg.addresses[a])->0;
        lemma_entries_for_match(cfg, service, cidr, f, p, r);
        lemma_new_entry_matches(
            s.install(cfg, service, n),
            before.entries,
            crate::resolve::entries_for(cfg, service, cidr),
            f,
        );
    }
}

/// Every entry after an installation was there before or is the service's, with its time to dial.
proof fn lemma_install_origin(
    s: ResolverState,
    cfg: crate::config::ConfigState,
    service: Seq<char>,
    n: nat,
)
    requires
        n <= cfg.addresses.len(),
    ensures
        forall|j: int|
            0 <= j < s.install(cfg, service, n).entries.len() ==> s.entries.contains(
                #[trigger] s.install(cfg, service, n).entries[j],
            ) || (s.install(cfg, service, n).entries[j].rule.service == service && s.install(
                cfg,
                service,
                n,
            ).entries[j].rule.dial_timeout == crate::config::timeout_of(cfg)),
    decreases n,
{
    if n > 0 {
        lemma_install_origin(s, cfg, service, (n - 1) as nat);
        let before = s.install(cfg, service, (n - 1) as nat).entries;
        let after = s.install(cfg, service, n).entries;
        assert forall|j: int| 0 <= j < after.len() implies s.entries.contains(#[trigger] after[j]) || (
        after[j].rule.service == service && after[j].rule.dial_timeout == crate::config::timeout_of(
            cfg,
        )) by {
            if j < before.len() {
                assert(after[j] == before[j]);
            }
        }
    }
}

/// The table that a service's configuration is installed into.
pub open spec fn cleared_for(s: ResolverState, svc: &Service) -> ResolverState {
    let cleared = s.without(svc.name@);
    let c = svc.configs@[svc.intercept_index()];
    ResolverState {
        installed: cleared.installed.insert(
            svc.name@,
            crate::resolve::InstalledState {
                raw: c.raw@,
                routes: crate::config::literal_nets(c.intercept->Ok_0@.addresses),
            },
        ),
        ..cleared
    }
}

/// What a service is configured to intercept is intercepted: once its report was applied, a flow to an
/// address in one of its networks, of one of its protocols, to a port of one of its ranges and from a
/// source that it allows, belongs to a service; and to that service, with its time to dial, where no
/// entry of another matches the flow.
pub proof fn law_configured_flow_is_intercepted(
    s: ResolverState,
    svc: &Service,
    f: Flow,
    a: int,
    p: int,
    r: int,
)
    requires
        installs(svc),
        !unchanged(s, svc),
        ({
            let cfg = svc.configs@[svc.intercept_index()].intercept->Ok_0@;
            &&& configured(cfg, f, p, r)
            &&& 0 <= a < cfg.addresses.len()
            &&& !crate::names::has_wildcard_mark(cfg.addresses[a])
            &&& crate::addr::net_text(cfg.addresses[a]) matches Some(cidr) && cidr.covers(f.dst_ip)
        }),
    ensures
        s.add(svc).0.lookup(f) is Some,
        (forall|j: int|
            0 <= j < s.entries.len() && s.entries[j].rule.service != svc.name@ ==> !(
            #[trigger] s.entries[j]).matches(f)) ==> (s.add(svc).0.lookup(f) matches Some(rule)
            && rule.service == svc.name@ && rule.dial_timeout == crate::config::timeout_of(
            svc.configs@[svc.intercept_index()].intercept->Ok_0@,
        )),
{
    let cfg = svc.configs@[svc.intercept_index()].intercept->Ok_0@;
    let start = cleared_for(s, svc);
    let after = s.add(svc).0;
    assert(after == start.install(cfg, svc.name@, cfg.addresses.len()));
    lemma_install_literal(start, cfg, svc.name@, cfg.addresses.len(), f, a, p, r);
    lemma_found_entry(after.entries, f);
    lemma_install_origin(start, cfg, svc.name@, cfg.addresses.len());
    lemma_entries_without(s.entries, svc.name@);
    let e = crate::resolve::first_entry(after.entries, f)->0;
    let j = choose|j: int| 0 <= j < after.entries.len() && after.entries[j] == e;
    if forall|j: int|
        0 <= j < s.entries.len() && s.entries[j].rule.service != svc.name@ ==> !(
        #[trigger] s.entries[j]).matches(f) {
        if start.entries.contains(after.entries[j]) {
            let k = choose|k: int| 0 <= k < start.entries.len() && start.entries[k] == after.entries[j];
            let i = choose|i: int| 0 <= i < s.entries.len() && s.entries[i] == start.entries[k];
            assert(!s.entries[i].matches(f));
        }
    }
}

proof fn lemma_install_host(
    s: ResolverState,
    cfg: crate::config::ConfigState,
    service: Seq<char>,
    n: nat,
    f: Flow,
    h: Seq<char>,
    a: int,
    p: int,
    r: int,
)
    requires
        0 <= a < n <= cfg.addresses.len(),
        configured(cfg, f, p, r),
        !crate::names::has_wildcard_mark(cfg.addresses[a]),
        crate::addr::net_text(cfg.addresses[a]) is None,
        crate::names::name_of(cfg.addresses[a]) == Some(crate::names::NameSpec::Host(h)),
        s.install(cfg, service, n).dns.hosts.contains_key(h),
        f.dst_ip == IpAddr::V4(s.install(cfg, service, n).dns.hosts[h].ip),
    ensures
        some_entry(s.install(cfg, service, n), f),
    decreases n,
{
    let before = s.install(cfg, service, (n - 1) as nat);
    let addr = cfg.addresses[n - 1];
    let after = before.install_one(cfg, service, addr);
    lemma_install_one_grows(before, cfg, service, addr, f);
    if before.dns.hosts.contains_key(h) && a < n - 1 {
        lemma_install_host(s, cfg, service, (n - 1) as nat, f, h, a, p, r);
    } else {
        let ip = after.dns.hosts[h].ip;
        let cidr = crate::addr::IpNet::V4 { addr: ip, prefix: 32 };
        vstd::arithmetic::power2::lemma2_to64();
        assert(cidr.covers(f.dst_ip));
        lemma_entries_for_match(cfg, service, cidr, f, p, r);
        lemma_new_entry_matches(
            after,
            before.entries,
            crate::resolve::entries_for(cfg, service, cidr),
            f,
        );
    }
}

/// A host that a service names is intercepted: once the service's report was applied, a flow to the
/// synthetic address of the host, of one of the service's protocols, to a port of one of its ranges and
/// from a source that it allows, belongs to a service.
pub proof fn law_named_host_is_intercepted(
    s: ResolverState,
    svc: &Service,
    f: Flow,
    h: Seq<char>,
    a: int,
    p: int,
    r: int,
)
    requires
        installs(svc),
        !unchanged(s, svc),
        ({
            let cfg = svc.configs@[svc.intercept_index()].intercept->Ok_0@;
            &&& configured(cfg, f, p, r)
            &&& 0 <= a < cfg.addresses.len()
            &&& !crate::names::has_wildcard_mark(cfg.addresses[a])
            &&& crate::addr::net_text(cfg.addresses[a]) is None
            &&& crate::names::name_of(cfg.addresses[a]) == Some(crate::names::NameSpec::Host(h))
        }),
        s.add(svc).0.dns.hosts.contains_key(h),
        f.dst_ip == IpAddr::V4(s.add(svc).0.dns.hosts[h].ip),
    ensures
        s.add(svc).0.lookup(f) is Some,
{
    let cfg = svc.configs@[svc.intercept_index()].intercept->Ok_0@;
    let start = cleared_for(s, svc);
    let after = s.add(svc).0;
    assert(after == start.install(cfg, svc.name@, cfg.addresses.len()));
    lemma_install_host(start, cfg, svc.name@, cfg.addresses.len(), f, h, a, p, r);
    lemma_found_entry(after.entries, f);
}

/// An address that a lookup hands out under a domain is intercepted: a flow to it belongs to a service,
/// if a wildcard entry whose domain the name was found under allows the flow.
pub proof fn law_name_under_a_domain_is_intercepted(
    s: ResolverState,
    name: Seq<char>,
    f: Flow,
    j: int,
)
    requires
        s.dns.wf(),
        !s.dns.hosts.contains_key(crate::names::lower(name)),
        s.dns.lookup(name).1 matches Some(m) && f.dst_ip == IpAddr::V4(m.ip),
        0 <= j < s.wildcards.len(),
        s.wildcards[j].rule.allows(f),
        s.dns.matched_domain(name) matches Some(d) && crate::names::lies_in(d, s.wildcards[j].suffix),
    ensures
        (ResolverState { dns: s.dns.lookup(name).0, ..s }).lookup(f) is Some,
{
    let after = ResolverState { dns: s.dns.lookup(name).0, ..s };
    crate::dns::law_reverse_of_lookup(s.dns, name);
    let d = s.dns.matched_domain(name)->0;
    lemma_found_claim(after.wildcards, d, f);
    assert(after.wildcards[j].claims(d, f));
}

/// Whether every address of a configuration is an IP address or a network.
pub open spec fn only_networks(cfg: crate::config::ConfigState) -> bool {
    forall|i: int|
        0 <= i < cfg.addresses.len() ==> !crate::names::has_wildcard_mark(
            #[trigger] cfg.addresses[i],
        ) && crate::addr::net_text(cfg.addresses[i]) is Some
}

/// An installation of networks puts entries of the service behind those of the table, and changes nothing
/// else.
proof fn lemma_install_networks(
    s: ResolverState,
    cfg: crate::config::ConfigState,
    service: Seq<char>,
    n: nat,
)
    requires
        n <= cfg.addresses.len(),
        only_networks(cfg),
    ensures
        s.install(cfg, service, n).wildcards == s.wildcards,
        s.install(cfg, service, n).dns == s.dns,
        s.install(cfg, service, n).installed == s.installed,
        crate::resolve::entries_without(s.install(cfg, service, n).entries, service)
            == crate::resolve::entries_without(s.entries, service),
    decreases n,
{
    if n > 0 {
        lemma_install_networks(s, cfg, service, (n - 1) as nat);
        let addr = cfg.addresses[n - 1];
        let cidr = crate::addr::net_text(addr)->0;
        lemma_own_entries_go(
            s.install(cfg, service, (n - 1) as nat).entries,
            crate::resolve::entries_for(cfg, service, cidr),
            service,
        );
    }
}

proof fn lemma_own_entries_go(before: Seq<EntryState>, own: Seq<EntryState>, service: Seq<char>)
    requires
        forall|i: int| 0 <= i < own.len() ==> (#[trigger] own[i]).rule.service == service,
    ensures
        crate::resolve::entries_without(before + own, service) == crate::resolve::entries_without(
            before,
            service,
        ),
    decreases own.len(),
{
    if own.len() == 0 {
        assert(before + own =~= before);
    } else {
        assert((before + own).drop_last() =~= before + own.drop_last());
        assert((before + own).last() == own.last());
        lemma_own_entries_go(before, own.drop_last(), service);
    }
}

proof fn lemma_no_own_entries(entries: Seq<EntryState>, service: Seq<char>)
    requires
        forall|i: int| 0 <= i < entries.len() ==> (#[trigger] entries[i]).rule.service != service,
    ensures
        crate::resolve::entries_without(entries, service) == entries,
    decreases entries.len(),
{
    if entries.len() > 0 {
        lemma_no_own_entries(entries.drop_last(), service);
        assert(entries.drop_last().push(entries.last()) =~= entries);
    } else {
        assert(crate::resolve::entries_without(entries, service) =~= entries);
    }
}

proof fn lemma_no_own_wildcards(wildcards: Seq<WildcardState>, service: Seq<char>)
    requires
        forall|i: int| 0 <= i < wildcards.len() ==> (#[trigger] wildcards[i]).rule.service != service,
    ensures
        crate::resolve::wildcards_without(wildcards, service) == wildcards,
    decreases wildcards.len(),
{
    if wildcards.len() > 0 {
        lemma_no_own_wildcards(wildcards.drop_last(), service);
        assert(wildcards.drop_last().push(wildcards.last()) =~= wildcards);
    } else {
        assert(crate::resolve::wildcards_without(wildcards, service) =~= wildcards);
    }
}

proof fn lemma_no_own_claims(dns: crate::dns::DnsState, service: Seq<char>)
    requires
        dns.wf(),
        forall|n: Seq<char>| #[trigger]
            dns.hosts.contains_key(n) ==> !dns.hosts[n].claims.contains(service),
        forall|d: Seq<char>| #[trigger]
            dns.domains.contains_key(d) ==> !dns.domains[d].contains(service),
    ensures
        dns.deregister(service) == dns,
{
    let after = dns.deregister(service);
    assert forall|d: Seq<char>| #[trigger] dns.domains.contains_key(d) implies dns.domains[d].remove(
        service,
    ) == dns.domains[d] by {
        assert(dns.domains[d].remove(service) =~= dns.domains[d]);
    }
    assert forall|n: Seq<char>| #[trigger] dns.hosts.contains_key(n) implies dns.survives(
        dns.hosts[n],
        service,
    ) && after.hosts[n] == dns.hosts[n] by {
        assert(dns.hosts[n].claims.remove(service) =~= dns.hosts[n].claims);
    }
    assert(after.hosts =~= dns.hosts);
    assert(after.domains =~= dns.domains);
}

/// A table is left as it was by taking a service out that is not in it.
proof fn lemma_absent_service(s: ResolverState, service: Seq<char>)
    requires
        s.dns.wf(),
        owned(s),
        !s.installed.contains_key(service),
    ensures
        s.without(service) == s,
{
    lemma_no_own_entries(s.entries, service);
    lemma_no_own_wildcards(s.wildcards, service);
    lemma_no_own_claims(s.dns, service);
    assert(s.installed.remove(service) =~= s.installed);
}

/// The routes that the removal of a service gives are those that its addition gave, in the same order and
/// as often, if nothing was installed for it before.
pub proof fn law_removal_gives_what_addition_gave(s: ResolverState, svc: &Service)
    requires
        !s.installed.contains_key(svc.name@),
    ensures
        s.add(svc).0.routes_of(svc.name@) == s.add(svc).1.added,
        s.add(svc).1.removed.len() == 0,
        installs(svc) ==> s.add(svc).1.added == crate::config::literal_nets(
            svc.configs@[svc.intercept_index()].intercept->Ok_0@.addresses,
        ),
{
    if installs(svc) {
        let cfg = svc.configs@[svc.intercept_index()].intercept->Ok_0@;
        lemma_install_keeps_installed(cleared_for(s, svc), cfg, svc.name@, cfg.addresses.len());
    }
}

/// The removal of a service undoes its addition: where nothing was installed for the service and every
/// address of its configuration is an IP address or a network, the table is then what it was before, its
/// names and wildcard entries too. So every lookup gives what it gave, and the networks of the entries
/// are the same in the same order.
pub proof fn law_removal_undoes_addition(s: ResolverState, svc: &Service)
    requires
        s.dns.wf(),
        owned(s),
        !s.installed.contains_key(svc.name@),
        installs(svc) ==> only_networks(svc.configs@[svc.intercept_index()].intercept->Ok_0@),
    ensures
        s.add(svc).0.without(svc.name@) == s,
        forall|f: Flow| #[trigger] s.add(svc).0.without(svc.name@).lookup(f) == s.lookup(f),
        forall|d: Seq<char>| #[trigger]
            s.add(svc).0.without(svc.name@).proxy_service(d) == s.proxy_service(d),
        crate::resolve::distinct_nets(
            s.add(svc).0.without(svc.name@).entries.map_values(|e: EntryState| e.cidr),
        ) == crate::resolve::distinct_nets(s.entries.map_values(|e: EntryState| e.cidr)),
{
    let name = svc.name@;
    lemma_absent_service(s, name);
    if installs(svc) {
        let cfg = svc.configs@[svc.intercept_index()].intercept->Ok_0@;
        let start = cleared_for(s, svc);
        assert(s.add(svc).0 == start.install(cfg, name, cfg.addresses.len()));
        lemma_install_networks(start, cfg, name, cfg.addresses.len());
        let after = s.add(svc).0.without(name);
        lemma_no_own_entries(s.entries, name);
        lemma_no_own_wildcards(s.wildcards, name);
        lemma_no_own_claims(s.dns, name);
        assert(after.installed =~= s.installed);
    }
}

} // verus!
