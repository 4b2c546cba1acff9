//! What the table of intercepts gives to a service, and in what order, stated over the service's
//! configuration.

use vstd::prelude::*;

use crate::addr::{net_text, IpAddr, IpNet};
use crate::config::{ConfigState, PortRange, Service, ServiceEvent};
use crate::config_laws::lets_in;
use crate::dns::DnsState;
use crate::names::{lies_in, lower};
use crate::resolve::{
    distinct_nets, entries_without, first_claim, first_of_domain, rows, wildcards_without,
    AppliedEvent, EntryState, Flow, InterceptEntry, Protocol, ResolverState, RuleState, WildcardEntry,
    WildcardState,
};
use crate::resolve_laws::{
    cleared_for, installs, lemma_entries_without, lemma_found_claim, lemma_found_domain,
    lemma_found_entry, lemma_install_one_grows, lemma_no_entry, lemma_rows_have,
    lemma_wildcards_without, unchanged,
};

verus! {

/// Whether a protocol of a configuration, by its position, is the flow's, and a range of it has the
/// flow's port.
pub open spec fn serves(cfg: ConfigState, f: Flow, p: int, r: int) -> bool {
    &&& 0 <= p < cfg.protocols.len()
    &&& match f.proto {
        Protocol::Tcp => cfg.protocols[p] == "tcp"@,
        Protocol::Udp => cfg.protocols[p] == "udp"@,
    }
    &&& 0 <= r < cfg.port_ranges.len()
    &&& cfg.port_ranges[r].low <= f.dst_port
    &&& f.dst_port <= cfg.port_ranges[r].high
}

/// Whether an address begins with the mark of a wildcard domain.
pub open spec fn marked(addr: Seq<char>) -> bool {
    addr.len() >= 2 && addr[0] == '*' && addr[1] == '.'
}

/// Whether an address of a configuration leads to a destination: it is a network with the destination in
/// it, a host whose synthetic address the destination is, or a wildcard domain that the destination was
/// handed out under.
pub open spec fn reaches(addr: Seq<char>, dns: DnsState, ip: IpAddr) -> bool {
    if marked(addr) {
        ip matches IpAddr::V4(x) && (dns.reverse_domain(x) matches Some(domain) && lies_in(
            domain,
            lower(addr.skip(2)),
        ))
    } else {
        match net_text(addr) {
            Some(n) => n.covers(ip),
            None => dns.hosts.contains_key(lower(addr)) && ip == IpAddr::V4(dns.hosts[lower(addr)].ip),
        }
    }
}

/// Whether a rule is the one that a service's configuration gives for one of its protocols and ranges.
pub open spec fn rule_of(cfg: ConfigState, service: Seq<char>, rule: RuleState, p: int, r: int) -> bool {
    &&& 0 <= p < cfg.protocols.len()
    &&& rule.protocol == cfg.protocols[p]
    &&& 0 <= r < cfg.port_ranges.len()
    &&& rule.low_port == cfg.port_ranges[r].low
    &&& rule.high_port == cfg.port_ranges[r].high
    &&& rule.service == service
    &&& rule.dial_timeout == crate::config::timeout_of(cfg)
    &&& rule.allowed_sources == crate::config::sources_of(cfg.allowed_source_addresses)
}

/// Whether an entry's network is that of an address of the configuration: the network that it writes, or
/// the one address of the host that it names.
pub open spec fn network_of(dns: DnsState, addr: Seq<char>, cidr: IpNet) -> bool {
    !marked(addr) && match net_text(addr) {
        Some(n) => cidr == n,
        None => dns.hosts.contains_key(lower(addr)) && cidr == (IpNet::V4 {
            addr: dns.hosts[lower(addr)].ip,
            prefix: 32,
        }),
    }
}

/// Whether an entry is the one of an address, a protocol and a range of a service's configuration.
pub open spec fn entry_of(
    cfg: ConfigState,
    service: Seq<char>,
    dns: DnsState,
    e: EntryState,
    a: int,
    p: int,
    r: int,
) -> bool {
    0 <= a < cfg.addresses.len() && network_of(dns, cfg.addresses[a], e.cidr) && rule_of(
        cfg,
        service,
        e.rule,
        p,
        r,
    )
}

/// Whether a wildcard entry is the one of an address, a protocol and a range of a service's configuration.
pub open spec fn wildcard_of(
    cfg: ConfigState,
    service: Seq<char>,
    w: WildcardState,
    a: int,
    p: int,
    r: int,
) -> bool {
    0 <= a < cfg.addresses.len() && marked(cfg.addresses[a]) && w.suffix == lower(
        cfg.addresses[a].skip(2),
    ) && rule_of(cfg, service, w.rule, p, r)
}

proof fn lemma_rows_only(protocols: Seq<Seq<char>>, ranges: Seq<PortRange>, k: int) -> (at: (int, int))
    requires
        0 <= k < rows(protocols, ranges).len(),
    ensures
        0 <= at.0 < protocols.len(),
        0 <= at.1 < ranges.len(),
        rows(protocols, ranges)[k] == (protocols[at.0], ranges[at.1]),
    decreases protocols.len(),
{
    let before = rows(protocols.drop_last(), ranges);
    if k < before.len() {
        lemma_rows_only(protocols.drop_last(), ranges, k)
    } else {
        (protocols.len() - 1, k - before.len())
    }
}

/// Whether an entry was there before or is one of the configuration.
pub open spec fn entries_configured(
    old_entries: Seq<EntryState>,
    cfg: ConfigState,
    service: Seq<char>,
    dns: DnsState,
    e: EntryState,
) -> bool {
    old_entries.contains(e) || exists|a: int, p: int, r: int|
        #[trigger] entry_of(cfg, service, dns, e, a, p, r)
}

/// Whether a wildcard entry was there before or is one of the configuration.
pub open spec fn wildcards_configured(
    old_wildcards: Seq<WildcardState>,
    cfg: ConfigState,
    service: Seq<char>,
    w: WildcardState,
) -> bool {
    old_wildcards.contains(w) || exists|a: int, p: int, r: int|
        #[trigger] wildcard_of(cfg, service, w, a, p, r)
}

proof fn lemma_installed_entries(s: ResolverState, cfg: ConfigState, service: Seq<char>, n: nat)
    requires
        n <= cfg.addresses.len(),
    ensures
        ({
            let after = s.install(cfg, service, n);
            forall|j: int|
                0 <= j < after.entries.len() ==> entries_configured(
                    s.entries,
                    cfg,
                    service,
                    after.dns,
                    #[trigger] after.entries[j],
                )
        }),
    decreases n,
{
    let after = s.install(cfg, service, n);
    if n == 0 {
        assert forall|j: int| 0 <= j < after.entries.len() implies entries_configured(
            s.entries,
            cfg,
            service,
            after.dns,
            #[trigger] after.entries[j],
        ) by {
            assert(s.entries.contains(s.entries[j]));
        }
    } else {
        let before = s.install(cfg, service, (n - 1) as nat);
        let addr = cfg.addresses[n - 1];
        lemma_installed_entries(s, cfg, service, (n - 1) as nat);
        lemma_install_one_grows(before, cfg, service, addr, arbitrary());
        assert forall|j: int| 0 <= j < after.entries.len() implies entries_configured(
            s.entries,
            cfg,
            service,
            after.dns,
            #[trigger] after.entries[j],
        ) by {
            let e = after.entries[j];
            if j < before.entries.len() {
                assert(e == before.entries[j]);
                if !s.entries.contains(e) {
                    let (a, p, r) = choose|a: int, p: int, r: int| #[trigger]
                        entry_of(cfg, service, before.dns, e, a, p, r);
                    assert(entry_of(cfg, service, after.dns, e, a, p, r));
                }
            } else {
                let k = j - before.entries.len();
                let (p, r) = lemma_rows_only(cfg.protocols, cfg.port_ranges, k);
                assert(entry_of(cfg, service, after.dns, e, n - 1, p, r));
            }
        }
    }
}

proof fn lemma_installed_wildcards(s: ResolverState, cfg: ConfigState, service: Seq<char>, n: nat)
    requires
        n <= cfg.addresses.len(),
    ensures
        ({
            let after = s.install(cfg, service, n);
            forall|j: int|
                0 <= j < after.wildcards.len() ==> wildcards_configured(
                    s.wildcards,
                    cfg,
                    service,
                    #[trigger] after.wildcards[j],
                )
        }),
    decreases n,
{
    let after = s.install(cfg, service, n);
    if n == 0 {
        assert forall|j: int| 0 <= j < after.wildcards.len() implies wildcards_configured(
            s.wildcards,
            cfg,
            service,
            #[trigger] after.wildcards[j],
        ) by {
            assert(s.wildcards.contains(s.wildcards[j]));
        }
    } else {
        let before = s.install(cfg, service, (n - 1) as nat);
        lemma_installed_wildcards(s, cfg, service, (n - 1) as nat);
        assert forall|j: int| 0 <= j < after.wildcards.len() implies wildcards_configured(
            s.wildcards,
            cfg,
            service,
            #[trigger] after.wildcards[j],
        ) by {
            let w = after.wildcards[j];
            if j < before.wildcards.len() {
                assert(w == before.wildcards[j]);
            } else {
                let k = j - before.wildcards.len();
                let (p, r) = lemma_rows_only(cfg.protocols, cfg.port_ranges, k);
                assert(wildcard_of(cfg, service, w, n - 1, p, r));
            }
        }
    }
}

/// The configuration that a report is installed with.
pub open spec fn configuration(svc: &Service) -> ConfigState {
    svc.configs@[svc.intercept_index()].intercept->Ok_0@
}

/// What is intercepted for a service is what it is configured to intercept: once its report was applied,
/// a flow that the table gives to the service has a protocol of its configuration, a port of one of its
/// ranges, a destination that one of its addresses leads to and a source that it allows. The time to dial
/// is the configuration's.
pub proof fn law_intercepted_flow_is_configured(s: ResolverState, svc: &Service, f: Flow)
    requires
        installs(svc),
        !unchanged(s, svc),
        s.add(svc).0.lookup(f) matches Some(rule) && rule.service == svc.name@,
    ensures
        exists|p: int, r: int| #[trigger] serves(configuration(svc), f, p, r),
        exists|a: int|
            0 <= a < configuration(svc).addresses.len() && reaches(
                #[trigger] configuration(svc).addresses[a],
                s.add(svc).0.dns,
                f.dst_ip,
            ),
        configuration(svc).allowed_source_addresses.len() > 0 ==> exists|i: int|
            0 <= i < configuration(svc).allowed_source_addresses.len() && lets_in(
                #[trigger] configuration(svc).allowed_source_addresses[i],
                f.src_ip,
            ),
        s.add(svc).0.lookup(f)->0.dial_timeout == crate::config::timeout_of(configuration(svc)),
{
    let cfg = configuration(svc);
    let name = svc.name@;
    let start = cleared_for(s, svc);
    let after = s.add(svc).0;
    assert(after == start.install(cfg, name, cfg.addresses.len()));
    lemma_entries_without(s.entries, name);
    lemma_wildcards_without(s.wildcards, name);
    lemma_installed_entries(start, cfg, name, cfg.addresses.len());
    lemma_installed_wildcards(start, cfg, name, cfg.addresses.len());
    lemma_found_entry(after.entries, f);
    crate::config_laws::law_who_is_admitted(cfg.allowed_source_addresses, f.src_ip);
    match crate::resolve::first_entry(after.entries, f) {
        Some(e) => {
            let j = choose|j: int| 0 <= j < after.entries.len() && after.entries[j] == e;
            assert(entries_configured(start.entries, cfg, name, after.dns, after.entries[j]));
            if start.entries.contains(e) {
                let k = choose|k: int| 0 <= k < start.entries.len() && start.entries[k] == e;
                assert(start.entries[k].rule.service != name);
            }
            let (a, p, r) = choose|a: int, p: int, r: int| #[trigger]
                entry_of(cfg, name, after.dns, e, a, p, r);
            assert(entry_of(cfg, name, after.dns, e, a, p, r));
            assert(serves(cfg, f, p, r));
            if net_text(cfg.addresses[a]) is None {
                crate::addr_laws::law_host_network_has_one_address(
                    IpAddr::V4(after.dns.hosts[lower(cfg.addresses[a])].ip),
                    f.dst_ip,
                );
            }
            assert(reaches(cfg.addresses[a], after.dns, f.dst_ip));
        },
        None => {
            let ip = f.dst_ip->V4_0;
            let domain = after.dns.reverse_domain(ip)->0;
            lemma_found_claim(after.wildcards, domain, f);
            let w = first_claim(after.wildcards, domain, f)->0;
            let j = choose|j: int| 0 <= j < after.wildcards.len() && after.wildcards[j] == w;
            assert(wildcards_configured(start.wildcards, cfg, name, after.wildcards[j]));
            if start.wildcards.contains(w) {
                let k = choose|k: int| 0 <= k < start.wildcards.len() && start.wildcards[k] == w;
                assert(start.wildcards[k].rule.service != name);
            }
            let (a, p, r) = choose|a: int, p: int, r: int| #[trigger]
                wildcard_of(cfg, name, w, a, p, r);
            assert(wildcard_of(cfg, name, w, a, p, r));
            assert(serves(cfg, f, p, r));
            assert(reaches(cfg.addresses[a], after.dns, f.dst_ip));
        },
    }
}

/// A rule allows a flow just if it has the flow's protocol by its name, a range of ports with the flow's
/// in it, ends included, and no list of sources or one with a network that the flow comes from.
pub proof fn law_what_a_rule_allows(rule: RuleState, f: Flow)
    ensures
        rule.allows(f) <==> {
            &&& rule.protocol == (match f.proto {
                Protocol::Tcp => "tcp"@,
                Protocol::Udp => "udp"@,
            })
            &&& rule.low_port <= f.dst_port
            &&& f.dst_port <= rule.high_port
            &&& (rule.allowed_sources matches Some(nets) ==> exists|i: int|
                0 <= i < nets.len() && (#[trigger] nets[i]).covers(f.src_ip))
        },
{
}

/// An entry matches a flow just if its network has the destination and its rule allows the flow; a
/// wildcard entry claims one just if the domain of the destination lies in its own and its rule allows
/// the flow.
pub proof fn law_what_an_entry_matches(e: EntryState, w: WildcardState, domain: Seq<char>, f: Flow)
    ensures
        e.matches(f) <==> e.cidr.covers(f.dst_ip) && e.rule.allows(f),
        w.claims(domain, f) <==> lies_in(domain, w.suffix) && w.rule.allows(f),
{
}

proof fn lemma_first_claim_is(wildcards: Seq<WildcardState>, domain: Seq<char>, f: Flow, i: int)
    requires
        0 <= i < wildcards.len(),
        wildcards[i].claims(domain, f),
        forall|j: int| 0 <= j < i ==> !(#[trigger] wildcards[j]).claims(domain, f),
    ensures
        first_claim(wildcards, domain, f) == Some(wildcards[i]),
    decreases wildcards.len(),
{
    let rest = wildcards.drop_last();
    if i < rest.len() {
        lemma_first_claim_is(rest, domain, f, i);
    } else {
        lemma_found_claim(rest, domain, f);
        if let Some(w) = first_claim(rest, domain, f) {
            let j = choose|j: int| 0 <= j < rest.len() && rest[j] == w;
            assert(wildcards[j].claims(domain, f));
        }
    }
}

/// Where no entry matches a flow and no wildcard entry both has the domain of its destination and allows it,
/// the flow belongs to nobody.
pub proof fn law_unclaimed_flow_belongs_to_nobody(s: ResolverState, f: Flow, ip: u32, domain: Seq<char>)
    requires
        forall|j: int| 0 <= j < s.entries.len() ==> !(#[trigger] s.entries[j]).matches(f),
        f.dst_ip == IpAddr::V4(ip),
        s.dns.reverse_domain(ip) == Some(domain),
        forall|j: int|
            0 <= j < s.wildcards.len() ==> !(lies_in(domain, (#[trigger] s.wildcards[j]).suffix)
                && s.wildcards[j].rule.allows(f)),
    ensures
        s.lookup(f) is None,
{
    lemma_no_entry(s.entries, f);
    lemma_found_claim(s.wildcards, domain, f);
    if let Some(w) = first_claim(s.wildcards, domain, f) {
        let j = choose|j: int| 0 <= j < s.wildcards.len() && s.wildcards[j] == w;
        assert(s.wildcards[j].claims(domain, f));
    }
}

/// Where no entry matches a flow, it belongs to the service of the first wildcard entry, in the table's
/// order, that allows it and whose domain has the one that the destination was handed out under.
pub proof fn law_first_claim_wins(s: ResolverState, f: Flow, ip: u32, domain: Seq<char>, i: int)
    requires
        forall|j: int| 0 <= j < s.entries.len() ==> !(#[trigger] s.entries[j]).matches(f),
        f.dst_ip == IpAddr::V4(ip),
        s.dns.reverse_domain(ip) == Some(domain),
        0 <= i < s.wildcards.len(),
        lies_in(domain, s.wildcards[i].suffix),
        s.wildcards[i].rule.allows(f),
        forall|j: int|
            0 <= j < i ==> !(lies_in(domain, (#[trigger] s.wildcards[j]).suffix)
                && s.wildcards[j].rule.allows(f)),
    ensures
        s.lookup(f) == Some(s.wildcards[i].rule),
{
    lemma_no_entry(s.entries, f);
    lemma_first_claim_is(s.wildcards, domain, f, i);
}

proof fn lemma_first_of_domain_is(wildcards: Seq<WildcardState>, domain: Seq<char>, i: int)
    requires
        0 <= i < wildcards.len(),
        wildcards[i].suffix == domain,
        forall|j: int| 0 <= j < i ==> (#[trigger] wildcards[j]).suffix != domain,
    ensures
        first_of_domain(wildcards, domain) == Some(wildcards[i]),
    decreases wildcards.len(),
{
    let rest = wildcards.drop_last();
    if i < rest.len() {
        lemma_first_of_domain_is(rest, domain, i);
    } else {
        lemma_found_domain(rest, domain);
        if let Some(w) = first_of_domain(rest, domain) {
            let j = choose|j: int| 0 <= j < rest.len() && rest[j] == w;
            assert(wildcards[j].suffix == domain);
        }
    }
}

/// The service that resolves names under a domain is that of the first wildcard entry for exactly the
/// domain; there is none only where no wildcard entry is for it.
pub proof fn law_first_of_a_domain_resolves(s: ResolverState, domain: Seq<char>, i: int)
    ensures
        0 <= i < s.wildcards.len() && s.wildcards[i].suffix == domain && (forall|j: int|
            0 <= j < i ==> (#[trigger] s.wildcards[j]).suffix != domain) ==> s.proxy_service(domain)
            == Some(s.wildcards[i].rule),
        (forall|j: int| 0 <= j < s.wildcards.len() ==> (#[trigger] s.wildcards[j]).suffix != domain)
            ==> s.proxy_service(domain) is None,
{
    if 0 <= i < s.wildcards.len() && s.wildcards[i].suffix == domain && (forall|j: int|
        0 <= j < i ==> (#[trigger] s.wildcards[j]).suffix != domain) {
        lemma_first_of_domain_is(s.wildcards, domain, i);
    }
    lemma_found_domain(s.wildcards, domain);
    if let Some(w) = first_of_domain(s.wildcards, domain) {
        let j = choose|j: int| 0 <= j < s.wildcards.len() && s.wildcards[j] == w;
        assert(s.wildcards[j].suffix == domain);
    }
}

/// A table without a service has the entries of the others, all of them and in their order.
pub proof fn law_entries_of_the_others(
    a: Seq<EntryState>,
    e: EntryState,
    b: Seq<EntryState>,
    service: Seq<char>,
)
    ensures
        entries_without(a + b, service) == entries_without(a, service) + entries_without(b, service),
        entries_without(seq![e], service) == (if e.rule.service == service {
            Seq::<EntryState>::empty()
        } else {
            seq![e]
        }),
    decreases b.len(),
{
    assert(seq![e].drop_last() =~= Seq::<EntryState>::empty());
    assert(entries_without(seq![e].drop_last(), service) =~= Seq::<EntryState>::empty());
    if b.len() == 0 {
        assert(a + b =~= a);
        assert(entries_without(b, service) =~= Seq::<EntryState>::empty());
        assert(entries_without(a, service) + entries_without(b, service) =~= entries_without(a, service));
    } else {
        let rest = b.drop_last();
        law_entries_of_the_others(a, e, rest, service);
        assert((a + b).drop_last() =~= a + rest);
        assert((a + b).last() == b.last());
        assert(entries_without(a + rest, service).push(b.last()) =~= entries_without(a, service)
            + entries_without(rest, service).push(b.last()));
    }
}

/// It has the wildcard entries of the others too, all of them and in their order.
pub proof fn law_wildcards_of_the_others(
    a: Seq<WildcardState>,
    w: WildcardState,
    b: Seq<WildcardState>,
    service: Seq<char>,
)
    ensures
        wildcards_without(a + b, service) == wildcards_without(a, service) + wildcards_without(b, service),
        wildcards_without(seq![w], service) == (if w.rule.service == service {
            Seq::<WildcardState>::empty()
        } else {
            seq![w]
        }),
    decreases b.len(),
{
    assert(seq![w].drop_last() =~= Seq::<WildcardState>::empty());
    assert(wildcards_without(seq![w].drop_last(), service) =~= Seq::<WildcardState>::empty());
    if b.len() == 0 {
        assert(a + b =~= a);
        assert(wildcards_without(b, service) =~= Seq::<WildcardState>::empty());
        assert(wildcards_without(a, service) + wildcards_without(b, service) =~= wildcards_without(
            a,
            service,
        ));
    } else {
        let rest = b.drop_last();
        law_wildcards_of_the_others(a, w, rest, service);
        assert((a + b).drop_last() =~= a + rest);
        assert((a + b).last() == b.last());
        assert(wildcards_without(a + rest, service).push(b.last()) =~= wildcards_without(a, service)
            + wildcards_without(rest, service).push(b.last()));
    }
}

/// The parts of a table without a service: the entries of the others, the names without the service's
/// claims, and the record of what is installed without the service.
pub proof fn law_parts_of_a_table_without_a_service(s: ResolverState, service: Seq<char>)
    ensures
        s.without(service).entries == entries_without(s.entries, service),
        s.without(service).wildcards == wildcards_without(s.wildcards, service),
        s.without(service).dns == s.dns.deregister(service),
        s.without(service).installed == s.installed.remove(service),
        s.installed.contains_key(service) ==> s.routes_of(service) == s.installed[service].routes,
        !s.installed.contains_key(service) ==> s.routes_of(service).len() == 0,
{
}

proof fn lemma_install_appends(s: ResolverState, cfg: ConfigState, service: Seq<char>, n: nat)
    requires
        n <= cfg.addresses.len(),
    ensures
        ({
            let after = s.install(cfg, service, n);
            &&& after.entries.len() >= s.entries.len()
            &&& after.entries.take(s.entries.len() as int) == s.entries
            &&& forall|j: int|
                s.entries.len() <= j < after.entries.len() ==> (
                #[trigger] after.entries[j]).rule.service == service
            &&& after.wildcards.len() >= s.wildcards.len()
            &&& after.wildcards.take(s.wildcards.len() as int) == s.wildcards
            &&& forall|j: int|
                s.wildcards.len() <= j < after.wildcards.len() ==> (
                #[trigger] after.wildcards[j]).rule.service == service
        }),
    decreases n,
{
    let after = s.install(cfg, service, n);
    if n == 0 {
        assert(after.entries.take(s.entries.len() as int) =~= s.entries);
        assert(after.wildcards.take(s.wildcards.len() as int) =~= s.wildcards);
    } else {
        lemma_install_appends(s, cfg, service, (n - 1) as nat);
        let before = s.install(cfg, service, (n - 1) as nat);
        assert(after.entries.take(before.entries.len() as int) =~= before.entries);
        assert(after.entries.take(s.entries.len() as int) =~= before.entries.take(
            s.entries.len() as int,
        ));
        assert(after.wildcards.take(before.wildcards.len() as int) =~= before.wildcards);
        assert(after.wildcards.take(s.wildcards.len() as int) =~= before.wildcards.take(
            s.wildcards.len() as int,
        ));
        assert forall|j: int| s.entries.len() <= j < after.entries.len() implies (
        #[trigger] after.entries[j]).rule.service == service by {
            if j < before.entries.len() {
                assert(after.entries[j] == before.entries[j]);
            }
        }
        assert forall|j: int| s.wildcards.len() <= j < after.wildcards.len() implies (
        #[trigger] after.wildcards[j]).rule.service == service by {
            if j < before.wildcards.len() {
                assert(after.wildcards[j] == before.wildcards[j]);
            }
        }
    }
}

/// A service that is installed comes last: the entries of the others keep their order and stand before
/// all of its own.
pub proof fn law_installed_service_comes_last(s: ResolverState, svc: &Service)
    requires
        installs(svc),
        !unchanged(s, svc),
    ensures
        ({
            let after = s.add(svc).0;
            let others = entries_without(s.entries, svc.name@);
            let domains = wildcards_without(s.wildcards, svc.name@);
            &&& after.entries.len() >= others.len()
            &&& after.entries.take(others.len() as int) == others
            &&& forall|j: int|
                others.len() <= j < after.entries.len() ==> (#[trigger] after.entries[j]).rule.service
                    == svc.name@
            &&& after.wildcards.len() >= domains.len()
            &&& after.wildcards.take(domains.len() as int) == domains
            &&& forall|j: int|
                domains.len() <= j < after.wildcards.len() ==> (
                #[trigger] after.wildcards[j]).rule.service == svc.name@
        }),
{
    let cfg = configuration(svc);
    let start = cleared_for(s, svc);
    assert(s.add(svc).0 == start.install(cfg, svc.name@, cfg.addresses.len()));
    lemma_install_appends(start, cfg, svc.name@, cfg.addresses.len());
}

proof fn lemma_wildcard_is_installed(
    s: ResolverState,
    cfg: ConfigState,
    service: Seq<char>,
    n: nat,
    a: int,
    p: int,
    r: int,
) -> (j: int)
    requires
        0 <= a < n <= cfg.addresses.len(),
        marked(cfg.addresses[a]),
        vstd::utf8::encode_utf8(lower(cfg.addresses[a].skip(2))).len() < 256,
        0 <= p < cfg.protocols.len(),
        0 <= r < cfg.port_ranges.len(),
    ensures
        0 <= j < s.install(cfg, service, n).wildcards.len(),
        wildcard_of(cfg, service, s.install(cfg, service, n).wildcards[j], a, p, r),
    decreases n,
{
    let before = s.install(cfg, service, (n - 1) as nat);
    let after = s.install(cfg, service, n);
    if a < n - 1 {
        let j = lemma_wildcard_is_installed(s, cfg, service, (n - 1) as nat, a, p, r);
        assert(after.wildcards[j] == before.wildcards[j]);
        j
    } else {
        lemma_rows_have(cfg.protocols, cfg.port_ranges, p, r);
        let all = rows(cfg.protocols, cfg.port_ranges);
        let k = choose|k: int| 0 <= k < all.len() && all[k] == (cfg.protocols[p], cfg.port_ranges[r]);
        before.wildcards.len() + k
    }
}

/// A wildcard domain that a service names is installed: for each protocol and range of the configuration
/// the table has a wildcard entry for the domain, in lower case and without its mark.
pub proof fn law_named_domain_is_installed(s: ResolverState, svc: &Service, a: int, p: int, r: int)
    requires
        installs(svc),
        !unchanged(s, svc),
        0 <= a < configuration(svc).addresses.len(),
        marked(configuration(svc).addresses[a]),
        vstd::utf8::encode_utf8(lower(configuration(svc).addresses[a].skip(2))).len() < 256,
        0 <= p < configuration(svc).protocols.len(),
        0 <= r < configuration(svc).port_ranges.len(),
    ensures
        exists|j: int|
            0 <= j < s.add(svc).0.wildcards.len() && wildcard_of(
                configuration(svc),
                svc.name@,
                #[trigger] s.add(svc).0.wildcards[j],
                a,
                p,
                r,
            ),
{
    let cfg = configuration(svc);
    let start = cleared_for(s, svc);
    assert(s.add(svc).0 == start.install(cfg, svc.name@, cfg.addresses.len()));
    let j = lemma_wildcard_is_installed(start, cfg, svc.name@, cfg.addresses.len(), a, p, r);
    assert(wildcard_of(cfg, svc.name@, s.add(svc).0.wildcards[j], a, p, r));
}

/// The record of what is installed: after a report that is installed it has the report's configuration
/// and the networks that its addresses write; of the other services it has what it had.
pub proof fn law_record_of_what_is_installed(s: ResolverState, svc: &Service, other: Seq<char>)
    requires
        installs(svc),
        !unchanged(s, svc),
    ensures
        s.add(svc).0.installed.contains_key(svc.name@),
        s.add(svc).0.installed[svc.name@].raw == svc.configs@[svc.intercept_index()].raw@,
        s.add(svc).0.installed[svc.name@].routes == crate::config::literal_nets(
            configuration(svc).addresses,
        ),
        s.add(svc).1.added == crate::config::literal_nets(configuration(svc).addresses),
        s.installed.contains_key(svc.name@) ==> s.add(svc).1.removed
            == s.installed[svc.name@].routes,
        !s.installed.contains_key(svc.name@) ==> s.add(svc).1.removed.len() == 0,
        other != svc.name@ ==> (s.add(svc).0.installed.contains_key(other)
            <==> s.installed.contains_key(other)),
        other != svc.name@ && s.installed.contains_key(other) ==> s.add(svc).0.installed[other]
            == s.installed[other],
{
    let cfg = configuration(svc);
    let start = cleared_for(s, svc);
    crate::resolve_laws::lemma_install_keeps_installed(start, cfg, svc.name@, cfg.addresses.len());
}

/// A service that is gone, or may not be dialled any more, is taken out with the routes that it had;
/// nothing is put in.
pub proof fn law_retired_service_takes_its_routes(s: ResolverState, svc: Service)
    ensures
        s.apply(&ServiceEvent::Removed(svc)).0 == s.without(svc.name@),
        s.apply(&ServiceEvent::Removed(svc)).1.removed == s.routes_of(svc.name@),
        s.apply(&ServiceEvent::Removed(svc)).1.added.len() == 0,
        !svc.dials() ==> s.apply(&ServiceEvent::Added(svc)).0 == s.without(svc.name@) && s.apply(
            &ServiceEvent::Added(svc),
        ).1.removed == s.routes_of(svc.name@) && s.apply(&ServiceEvent::Added(svc)).1.added.len() == 0,
        s.apply(&ServiceEvent::Changed(svc)) == s.apply(&ServiceEvent::Added(svc)),
{
}

/// Services that are reported in a list are applied one after the other, from an empty table on.
pub proof fn law_services_are_applied_in_turn(
    s: ResolverState,
    services: Seq<Service>,
    dns: DnsState,
    n: nat,
)
    requires
        n < services.len(),
    ensures
        s.add_all(services, 0) == s,
        s.add_all(services, n + 1) == s.add_all(services, n).apply(
            &ServiceEvent::Added(services[n as int]),
        ).0,
        crate::resolve::empty_table(dns).entries.len() == 0,
        crate::resolve::empty_table(dns).wildcards.len() == 0,
        crate::resolve::empty_table(dns).dns == dns,
        crate::resolve::empty_table(dns).installed.dom() == Set::<Seq<char>>::empty(),
{
    assert(crate::resolve::empty_table(dns).installed.dom() =~= Set::<Seq<char>>::empty());
}

/// The pairs of a protocol and a range come protocol by protocol, and for one protocol range by range.
pub proof fn law_rows_in_order(a: Seq<Seq<char>>, p: Seq<char>, ranges: Seq<PortRange>, i: int)
    ensures
        rows(Seq::<Seq<char>>::empty(), ranges).len() == 0,
        rows(a.push(p), ranges).len() == rows(a, ranges).len() + ranges.len(),
        rows(a.push(p), ranges).take(rows(a, ranges).len() as int) == rows(a, ranges),
        0 <= i < ranges.len() ==> rows(a.push(p), ranges)[rows(a, ranges).len() + i] == (p, ranges[i]),
{
    assert(a.push(p).drop_last() =~= a);
    assert(rows(a.push(p), ranges).take(rows(a, ranges).len() as int) =~= rows(a, ranges));
}

/// The distinct networks of a list are those of the list, each once; those of a longer list begin with
/// those of the shorter.
pub proof fn law_distinct_networks(s: Seq<IpNet>, more: Seq<IpNet>, n: IpNet)
    ensures
        distinct_nets(s).contains(n) <==> s.contains(n),
        distinct_nets(s).no_duplicates(),
        distinct_nets(s + more).len() >= distinct_nets(s).len(),
        distinct_nets(s + more).take(distinct_nets(s).len() as int) == distinct_nets(s),
    decreases s.len() + more.len(),
{
    let d = distinct_nets(s);
    if s.len() > 0 {
        let rest = s.drop_last();
        law_distinct_networks(rest, Seq::empty(), n);
        law_distinct_networks(rest, Seq::empty(), s.last());
        let before = distinct_nets(rest);
        if d.contains(n) {
            let k = choose|k: int| 0 <= k < d.len() && d[k] == n;
            if k < before.len() {
                assert(before[k] == n);
                assert(before.contains(n));
                let i = choose|i: int| 0 <= i < rest.len() && rest[i] == n;
                assert(s[i] == n);
            } else {
                assert(s[s.len() - 1] == n);
            }
        }
        if s.contains(n) {
            let i = choose|i: int| 0 <= i < s.len() && s[i] == n;
            if i < rest.len() {
                assert(rest[i] == n);
                assert(rest.contains(n));
                let k = choose|k: int| 0 <= k < before.len() && before[k] == n;
                assert(d[k] == n);
            } else if !before.contains(n) {
                assert(d[before.len() as int] == n);
            }
        }
    }
    if more.len() == 0 {
        assert(s + more =~= s);
        assert(d.take(d.len() as int) =~= d);
    } else {
        law_distinct_networks(s, more.drop_last(), n);
        assert((s + more).drop_last() =~= s + more.drop_last());
        let shorter = distinct_nets(s + more.drop_last());
        assert(distinct_nets(s + more).take(shorter.len() as int) =~= shorter);
        assert(distinct_nets(s + more).take(d.len() as int) =~= shorter.take(d.len() as int));
    }
}

/// An entry is told by its fields as they stand, and so is what a change asks for.
pub proof fn law_entries_are_read_as_they_stand(e: &InterceptEntry, w: &WildcardEntry, d: &AppliedEvent)
    ensures
        e@.cidr == e.cidr,
        e@.rule.low_port == e.low_port,
        e@.rule.high_port == e.high_port,
        e@.rule.protocol == e.protocol@,
        e@.rule.service == e.service@,
        e@.rule.dial_timeout == e.dial_timeout,
        e.allowed_sources is None ==> e@.rule.allowed_sources is None,
        e.allowed_sources matches Some(v) ==> e@.rule.allowed_sources == Some(v@),
        w@.suffix == w.suffix@,
        w@.rule.low_port == w.low_port,
        w@.rule.high_port == w.high_port,
        w@.rule.protocol == w.protocol@,
        w@.rule.service == w.service@,
        w@.rule.dial_timeout == w.dial_timeout,
        w.allowed_sources is None ==> w@.rule.allowed_sources is None,
        w.allowed_sources matches Some(v) ==> w@.rule.allowed_sources == Some(v@),
        d@.removed == d.routes.removed@,
        d@.added == d.routes.added@,
        d@.kill_active == d.kill_active,
{
}

/// Whether one registry has grown out of another by claims of one service alone: what is reserved and the
/// claims of the other services are the same, every host that was there has the same address and domain,
/// and what is new is claimed by the service and nobody else.
pub open spec fn grown_by(was: DnsState, now: DnsState, service: Seq<char>) -> bool {
    &&& now.reserved == was.reserved
    &&& forall|n: Seq<char>| #[trigger]
        was.hosts.contains_key(n) ==> now.hosts.contains_key(n) && now.hosts[n].ip == was.hosts[n].ip
            && now.hosts[n].domain == was.hosts[n].domain
    &&& forall|n: Seq<char>, c: Seq<char>|
        was.hosts.contains_key(n) && c != service ==> (#[trigger] now.hosts[n].claims.contains(c)
            <==> was.hosts[n].claims.contains(c))
    &&& forall|n: Seq<char>|
        was.hosts.contains_key(n) && was.hosts[n].claims.contains(service) ==> #[trigger]
            now.hosts[n].claims.contains(service)
    &&& forall|n: Seq<char>, c: Seq<char>|
        now.hosts.contains_key(n) && !was.hosts.contains_key(n) ==> (
        #[trigger] now.hosts[n].claims.contains(c) <==> c == service)
    &&& forall|n: Seq<char>| #[trigger]
        now.hosts.contains_key(n) && !was.hosts.contains_key(n) ==> now.hosts[n].domain is None
    &&& forall|d: Seq<char>| #[trigger]
        was.domains.contains_key(d) ==> now.domains.contains_key(d)
    &&& forall|d: Seq<char>, c: Seq<char>|
        was.domains.contains_key(d) && c != service ==> (#[trigger] now.domains[d].contains(c)
            <==> was.domains[d].contains(c))
    &&& forall|d: Seq<char>|
        was.domains.contains_key(d) && was.domains[d].contains(service) ==> #[trigger]
            now.domains[d].contains(service)
    &&& forall|d: Seq<char>, c: Seq<char>|
        now.domains.contains_key(d) && !was.domains.contains_key(d) ==> (
        #[trigger] now.domains[d].contains(c) <==> c == service)
}

proof fn lemma_register_grows(dns: DnsState, addr: Seq<char>, service: Seq<char>)
    ensures
        grown_by(dns, dns.register(addr, service).0, service),
        dns.allocate() is None ==> dns.register(addr, service).0.allocate() is None,
{
    let after = dns.register(addr, service).0;
    if let Some(crate::names::NameSpec::Domain(d)) = crate::names::name_of(addr) {
        assert(after.used() =~= dns.used());
    }
    if let Some(crate::names::NameSpec::Host(h)) = crate::names::name_of(addr) {
        if dns.hosts.contains_key(h) {
            assert forall|ip: u32| after.used().contains(ip) <==> dns.used().contains(ip) by {
                if after.used().contains(ip) && !after.reserved.contains(ip) {
                    let n = choose|n: Seq<char>| #[trigger]
                        after.hosts.contains_key(n) && after.hosts[n].ip == ip;
                    assert(dns.hosts.contains_key(n) && dns.hosts[n].ip == ip);
                }
                if dns.used().contains(ip) && !dns.reserved.contains(ip) {
                    let n = choose|n: Seq<char>| #[trigger]
                        dns.hosts.contains_key(n) && dns.hosts[n].ip == ip;
                    assert(after.hosts.contains_key(n) && after.hosts[n].ip == ip);
                }
            }
            assert(after.used() =~= dns.used());
        }
    }
}

proof fn lemma_grown_twice(a: DnsState, b: DnsState, c: DnsState, service: Seq<char>)
    requires
        grown_by(a, b, service),
        grown_by(b, c, service),
    ensures
        grown_by(a, c, service),
{
    assert forall|n: Seq<char>| #[trigger] a.hosts.contains_key(n) implies c.hosts.contains_key(n)
        && c.hosts[n].ip == a.hosts[n].ip && c.hosts[n].domain == a.hosts[n].domain by {
        assert(b.hosts.contains_key(n));
    }
    assert forall|n: Seq<char>, x: Seq<char>| a.hosts.contains_key(n) && x != service implies (
    #[trigger] c.hosts[n].claims.contains(x) <==> a.hosts[n].claims.contains(x)) by {
        assert(b.hosts.contains_key(n));
        assert(b.hosts[n].claims.contains(x) <==> a.hosts[n].claims.contains(x));
    }
    assert forall|n: Seq<char>|
        a.hosts.contains_key(n) && a.hosts[n].claims.contains(service) implies #[trigger] c.hosts[n].claims.contains(
        service,
    ) by {
        assert(b.hosts.contains_key(n));
        assert(b.hosts[n].claims.contains(service));
    }
    assert forall|n: Seq<char>, x: Seq<char>|
        c.hosts.contains_key(n) && !a.hosts.contains_key(n) implies (
    #[trigger] c.hosts[n].claims.contains(x) <==> x == service) by {
        if b.hosts.contains_key(n) {
            assert(b.hosts[n].claims.contains(x) <==> x == service);
        }
    }
    assert forall|n: Seq<char>| #[trigger]
        c.hosts.contains_key(n) && !a.hosts.contains_key(n) implies c.hosts[n].domain is None by {
        if b.hosts.contains_key(n) {
            assert(b.hosts[n].domain is None);
        }
    }
    assert forall|d: Seq<char>, x: Seq<char>| a.domains.contains_key(d) && x != service implies (
    #[trigger] c.domains[d].contains(x) <==> a.domains[d].contains(x)) by {
        assert(b.domains.contains_key(d));
        assert(b.domains[d].contains(x) <==> a.domains[d].contains(x));
    }
    assert forall|d: Seq<char>|
        a.domains.contains_key(d) && a.domains[d].contains(service) implies #[trigger] c.domains[d].contains(
        service,
    ) by {
        assert(b.domains.contains_key(d));
        assert(b.domains[d].contains(service));
    }
    assert forall|d: Seq<char>, x: Seq<char>|
        c.domains.contains_key(d) && !a.domains.contains_key(d) implies (
    #[trigger] c.domains[d].contains(x) <==> x == service) by {
        if b.domains.contains_key(d) {
            assert(b.domains[d].contains(x) <==> x == service);
        }
    }
}

proof fn lemma_install_names(s: ResolverState, cfg: ConfigState, service: Seq<char>, n: nat)
    requires
        n <= cfg.addresses.len(),
    ensures
        grown_by(s.dns, s.install(cfg, service, n).dns, service),
    decreases n,
{
    if n > 0 {
        lemma_install_names(s, cfg, service, (n - 1) as nat);
        let middle = s.install(cfg, service, (n - 1) as nat).dns;
        let after = s.install(cfg, service, n).dns;
        lemma_register_grows(middle, cfg.addresses[n - 1], service);
        lemma_grown_twice(s.dns, middle, after, service);
    }
}

/// Whether the name that an address gives is claimed by the service: the domain is, and so is the host,
/// unless no address was left for it.
pub open spec fn name_claimed(dns: DnsState, addr: Seq<char>, service: Seq<char>) -> bool {
    if marked(addr) {
        vstd::utf8::encode_utf8(lower(addr.skip(2))).len() < 256 ==> dns.domains.contains_key(
            lower(addr.skip(2)),
        ) && dns.domains[lower(addr.skip(2))].contains(service)
    } else {
        net_text(addr) is None && vstd::utf8::encode_utf8(lower(addr)).len() < 256 ==> (
        dns.hosts.contains_key(lower(addr)) && dns.hosts[lower(addr)].claims.contains(service))
            || dns.allocate() is None
    }
}

proof fn lemma_install_claims(s: ResolverState, cfg: ConfigState, service: Seq<char>, n: nat, a: int)
    requires
        0 <= a < n <= cfg.addresses.len(),
    ensures
        name_claimed(s.install(cfg, service, n).dns, cfg.addresses[a], service),
    decreases n,
{
    let middle = s.install(cfg, service, (n - 1) as nat).dns;
    let after = s.install(cfg, service, n).dns;
    let addr = cfg.addresses[n - 1];
    lemma_register_grows(middle, addr, service);
    if a < n - 1 {
        lemma_install_claims(s, cfg, service, (n - 1) as nat, a);
        let early = cfg.addresses[a];
        if marked(early) {
            let d = lower(early.skip(2));
            if vstd::utf8::encode_utf8(d).len() < 256 {
                assert(after.domains[d].contains(service));
            }
        } else {
            let h = lower(early);
            if middle.hosts.contains_key(h) && middle.hosts[h].claims.contains(service) {
                assert(after.hosts[h].claims.contains(service));
            }
        }
    }
}

/// The names of a service's configuration are claimed by it once its report was applied: each wildcard
/// domain, and each host for which an address was left.
pub proof fn law_named_hosts_and_domains_are_claimed(s: ResolverState, svc: &Service, a: int)
    requires
        installs(svc),
        !unchanged(s, svc),
        0 <= a < configuration(svc).addresses.len(),
    ensures
        name_claimed(s.add(svc).0.dns, configuration(svc).addresses[a], svc.name@),
{
    let cfg = configuration(svc);
    let start = cleared_for(s, svc);
    assert(s.add(svc).0 == start.install(cfg, svc.name@, cfg.addresses.len()));
    lemma_install_claims(start, cfg, svc.name@, cfg.addresses.len(), a);
}

/// A report changes no other service's names: after its own claims were dropped, the registry only grows by
/// new claims of the service.
pub proof fn law_names_of_the_others(s: ResolverState, svc: &Service)
    requires
        installs(svc),
        !unchanged(s, svc),
    ensures
        grown_by(s.dns.deregister(svc.name@), s.add(svc).0.dns, svc.name@),
{
    let cfg = configuration(svc);
    let start = cleared_for(s, svc);
    assert(s.add(svc).0 == start.install(cfg, svc.name@, cfg.addresses.len()));
    lemma_install_names(start, cfg, svc.name@, cfg.addresses.len());
}

/// The names that come with a report are those of its configuration.
pub proof fn law_new_names_are_the_configurations(s: ResolverState, svc: &Service, n: Seq<char>)
    requires
        installs(svc),
        !unchanged(s, svc),
    ensures
        s.add(svc).0.dns.hosts.contains_key(n) && s.add(svc).0.dns.hosts[n].claims.contains(svc.name@)
            ==> exists|a: int|
            0 <= a < configuration(svc).addresses.len() && host_named(
                #[trigger] configuration(svc).addresses[a],
                n,
            ),
        s.add(svc).0.dns.domains.contains_key(n) && s.add(svc).0.dns.domains[n].contains(svc.name@)
            ==> exists|a: int|
            0 <= a < configuration(svc).addresses.len() && domain_named(
                #[trigger] configuration(svc).addresses[a],
                n,
            ),
{
    let cfg = configuration(svc);
    let start = cleared_for(s, svc);
    assert(s.add(svc).0 == start.install(cfg, svc.name@, cfg.addresses.len()));
    crate::dns::law_deregister_is_complete(s.dns, svc.name@);
    lemma_install_only_names(start, cfg, svc.name@, cfg.addresses.len(), n);
}

/// Whether an address names the host.
pub open spec fn host_named(addr: Seq<char>, host: Seq<char>) -> bool {
    !marked(addr) && net_text(addr) is None && host == lower(addr)
}

/// Whether an address names the wildcard domain.
pub open spec fn domain_named(addr: Seq<char>, domain: Seq<char>) -> bool {
    marked(addr) && domain == lower(addr.skip(2))
}

proof fn lemma_install_only_names(
    s: ResolverState,
    cfg: ConfigState,
    service: Seq<char>,
    n: nat,
    name: Seq<char>,
)
    requires
        n <= cfg.addresses.len(),
        !(s.dns.hosts.contains_key(name) && s.dns.hosts[name].claims.contains(service)),
        !(s.dns.domains.contains_key(name) && s.dns.domains[name].contains(service)),
    ensures
        ({
            let after = s.install(cfg, service, n).dns;
            &&& after.hosts.contains_key(name) && after.hosts[name].claims.contains(service)
                ==> exists|a: int| 0 <= a < n && host_named(#[trigger] cfg.addresses[a], name)
            &&& after.domains.contains_key(name) && after.domains[name].contains(service)
                ==> exists|a: int| 0 <= a < n && domain_named(#[trigger] cfg.addresses[a], name)
        }),
    decreases n,
{
    if n > 0 {
        lemma_install_only_names(s, cfg, service, (n - 1) as nat, name);
        let middle = s.install(cfg, service, (n - 1) as nat).dns;
        let after = s.install(cfg, service, n).dns;
        let addr = cfg.addresses[n - 1];
        if after.hosts.contains_key(name) && after.hosts[name].claims.contains(service) {
            if !(middle.hosts.contains_key(name) && middle.hosts[name].claims.contains(service)) {
                assert(host_named(addr, name));
            }
        }
        if after.domains.contains_key(name) && after.domains[name].contains(service) {
            if !(middle.domains.contains_key(name) && middle.domains[name].contains(service)) {
                assert(domain_named(addr, name));
            }
        }
    }
}

proof fn lemma_install_reads_its_part(
    s: ResolverState,
    a: ConfigState,
    b: ConfigState,
    service: Seq<char>,
    n: nat,
)
    requires
        n <= a.addresses.len() <= b.addresses.len(),
        b.addresses.take(a.addresses.len() as int) == a.addresses,
        b.protocols == a.protocols,
        b.port_ranges == a.port_ranges,
        b.connect_timeout_seconds == a.connect_timeout_seconds,
        b.allowed_source_addresses == a.allowed_source_addresses,
    ensures
        s.install(b, service, n) == s.install(a, service, n),
    decreases n,
{
    if n > 0 {
        lemma_install_reads_its_part(s, a, b, service, (n - 1) as nat);
        assert(b.addresses.take(a.addresses.len() as int)[n - 1] == b.addresses[n - 1]);
        assert forall|cidr: IpNet| crate::resolve::entries_for(b, service, cidr)
            == #[trigger] crate::resolve::entries_for(a, service, cidr) by {
            assert(crate::resolve::entries_for(b, service, cidr) =~= crate::resolve::entries_for(
                a,
                service,
                cidr,
            ));
        }
        assert forall|d: Seq<char>| crate::resolve::wildcards_for(b, service, d)
            == #[trigger] crate::resolve::wildcards_for(a, service, d) by {
            assert(crate::resolve::wildcards_for(b, service, d) =~= crate::resolve::wildcards_for(
                a,
                service,
                d,
            ));
        }
    }
}

/// Addresses are installed in the order of the configuration: a configuration with more addresses behind
/// the same ones has the same entries in front, and its own behind them.
pub proof fn law_addresses_are_installed_in_order(
    s: ResolverState,
    a: ConfigState,
    b: ConfigState,
    service: Seq<char>,
)
    requires
        a.addresses.len() <= b.addresses.len(),
        b.addresses.take(a.addresses.len() as int) == a.addresses,
        b.protocols == a.protocols,
        b.port_ranges == a.port_ranges,
        b.connect_timeout_seconds == a.connect_timeout_seconds,
        b.allowed_source_addresses == a.allowed_source_addresses,
    ensures
        ({
            let fewer = s.install(a, service, a.addresses.len());
            let more = s.install(b, service, b.addresses.len());
            &&& fewer.entries.len() <= more.entries.len()
            &&& more.entries.take(fewer.entries.len() as int) == fewer.entries
            &&& fewer.wildcards.len() <= more.wildcards.len()
            &&& more.wildcards.take(fewer.wildcards.len() as int) == fewer.wildcards
        }),
{
    lemma_install_reads_its_part(s, a, b, service, a.addresses.len());
    lemma_install_extends(s, b, service, a.addresses.len(), b.addresses.len());
}

proof fn lemma_install_extends(s: ResolverState, cfg: ConfigState, service: Seq<char>, m: nat, n: nat)
    requires
        m <= n <= cfg.addresses.len(),
    ensures
        ({
            let fewer = s.install(cfg, service, m);
            let more = s.install(cfg, service, n);
            &&& fewer.entries.len() <= more.entries.len()
            &&& more.entries.take(fewer.entries.len() as int) == fewer.entries
            &&& fewer.wildcards.len() <= more.wildcards.len()
            &&& more.wildcards.take(fewer.wildcards.len() as int) == fewer.wildcards
        }),
    decreases n - m,
{
    let fewer = s.install(cfg, service, m);
    let more = s.install(cfg, service, n);
    if m == n {
        assert(more.entries.take(fewer.entries.len() as int) =~= fewer.entries);
        assert(more.wildcards.take(fewer.wildcards.len() as int) =~= fewer.wildcards);
    } else {
        let middle = s.install(cfg, service, (n - 1) as nat);
        lemma_install_extends(s, cfg, service, m, (n - 1) as nat);
        assert(more.entries.take(fewer.entries.len() as int) =~= middle.entries.take(
            fewer.entries.len() as int,
        ));
        assert(more.wildcards.take(fewer.wildcards.len() as int) =~= middle.wildcards.take(
            fewer.wildcards.len() as int,
        ));
    }
}

} // verus!
