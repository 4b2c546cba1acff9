//! The table of intercepts: which service, if any, a captured flow belongs to.
//!
//! A service with the dial permission and an `intercept.v1` configuration gets an entry for each of
//! its addresses, protocols and port ranges. An address that is an IP network matches destinations in
//! it; a host name matches the synthetic address that the name registry gives it; a wildcard domain
//! matches the addresses that the registry hands out to names under it.

use vstd::prelude::*;

use crate::addr::{parse_ip_or_cidr, IpAddr, IpNet};
use crate::config::{
    build_allowed_sources, dial_timeout_for, literal_addrs, InterceptV1Config, PortRange, Service,
    ServiceConfig, ServiceEvent,
};
use crate::dns::{DnsMatcher, RegisterOutcome};
use crate::names::{is_under, is_wildcard};
use crate::table::Table;

verus! {

/// The transport of a flow.
#[derive(Clone, Copy, Debug, PartialEq, Eq, Structural)]
pub enum Protocol {
    Tcp,
    Udp,
}

impl Protocol {
    /// The protocol's name in configurations.
    pub open spec fn text(self) -> Seq<char> {
        match self {
            Protocol::Tcp => "tcp"@,
            Protocol::Udp => "udp"@,
        }
    }

    /// The protocol's name in configurations.
    pub fn as_str(self) -> (r: &'static str)
        ensures
            r@ == self.text(),
    {
        match self {
            Protocol::Tcp => "tcp",
            Protocol::Udp => "udp",
        }
    }
}

/// A flow, as the table is asked about it.
pub struct Flow {
    pub dst_ip: IpAddr,
    pub dst_port: u16,
    pub proto: Protocol,
    pub src_ip: IpAddr,
}

/// What an entry asks of a flow besides its destination address, and what it gives.
pub struct RuleState {
    pub low_port: u16,
    pub high_port: u16,
    pub protocol: Seq<char>,
    pub service: Seq<char>,
    pub dial_timeout: u64,
    pub allowed_sources: Option<Seq<IpNet>>,
}

impl RuleState {
    /// Whether the flow's protocol, port and source are those that the entry asks for.
    pub open spec fn allows(self, f: Flow) -> bool {
        self.protocol == f.proto.text() && self.low_port <= f.dst_port <= self.high_port
            && crate::config::admits(self.allowed_sources, f.src_ip)
    }
}

/// An entry that matches destinations in a network.
pub struct EntryState {
    pub cidr: IpNet,
    pub rule: RuleState,
}

/// An entry that matches addresses handed out under a domain.
pub struct WildcardState {
    pub suffix: Seq<char>,
    pub rule: RuleState,
}

/// The configuration that is installed for a service: its text, and the networks that it writes.
pub struct InstalledState {
    pub raw: Seq<char>,
    pub routes: Seq<IpNet>,
}

/// The table.
pub struct ResolverState {
    pub entries: Seq<EntryState>,
    pub wildcards: Seq<WildcardState>,
    pub dns: crate::dns::DnsState,
    pub installed: Map<Seq<char>, InstalledState>,
}

/// The networks that a change took out of the table and put into it.
pub struct DeltaState {
    pub removed: Seq<IpNet>,
    pub added: Seq<IpNet>,
    pub kill_active: bool,
}

impl EntryState {
    pub open spec fn matches(self, f: Flow) -> bool {
        self.cidr.covers(f.dst_ip) && self.rule.allows(f)
    }
}

impl WildcardState {
    /// Whether the entry claims a flow to an address that was handed out under `domain`.
    pub open spec fn claims(self, domain: Seq<char>, f: Flow) -> bool {
        crate::names::lies_in(domain, self.suffix) && self.rule.allows(f)
    }
}

/// The first entry that matches the flow.
pub open spec fn first_entry(entries: Seq<EntryState>, f: Flow) -> Option<EntryState>
    decreases entries.len(),
{
    if entries.len() == 0 {
        None
    } else {
        match first_entry(entries.drop_last(), f) {
            Some(e) => Some(e),
            None => if entries.last().matches(f) {
                Some(entries.last())
            } else {
                None
            },
        }
    }
}

/// The first wildcard entry that claims the flow.
pub open spec fn first_claim(
    wildcards: Seq<WildcardState>,
    domain: Seq<char>,
    f: Flow,
) -> Option<WildcardState>
    decreases wildcards.len(),
{
    if wildcards.len() == 0 {
        None
    } else {
        match first_claim(wildcards.drop_last(), domain, f) {
            Some(e) => Some(e),
            None => if wildcards.last().claims(domain, f) {
                Some(wildcards.last())
            } else {
                None
            },
        }
    }
}

/// The first wildcard entry of exactly the domain.
pub open spec fn first_of_domain(
    wildcards: Seq<WildcardState>,
    domain: Seq<char>,
) -> Option<WildcardState>
    decreases wildcards.len(),
{
    if wildcards.len() == 0 {
        None
    } else {
        match first_of_domain(wildcards.drop_last(), domain) {
            Some(e) => Some(e),
            None => if wildcards.last().suffix == domain {
                Some(wildcards.last())
            } else {
                None
            },
        }
    }
}

/// The entries that are not those of a service.
pub open spec fn entries_without(entries: Seq<EntryState>, service: Seq<char>) -> Seq<EntryState>
    decreases entries.len(),
{
    if entries.len() == 0 {
        Seq::empty()
    } else if entries.last().rule.service == service {
        entries_without(entries.drop_last(), service)
    } else {
        entries_without(entries.drop_last(), service).push(entries.last())
    }
}

/// The wildcard entries that are not those of a service.
pub open spec fn wildcards_without(
    wildcards: Seq<WildcardState>,
    service: Seq<char>,
) -> Seq<WildcardState>
    decreases wildcards.len(),
{
    if wildcards.len() == 0 {
        Seq::empty()
    } else if wildcards.last().rule.service == service {
        wildcards_without(wildcards.drop_last(), service)
    } else {
        wildcards_without(wildcards.drop_last(), service).push(wildcards.last())
    }
}

/// The pairs of a protocol and a port range, protocol by protocol.
pub open spec fn rows(protocols: Seq<Seq<char>>, ranges: Seq<PortRange>) -> Seq<(Seq<char>, PortRange)>
    decreases protocols.len(),
{
    if protocols.len() == 0 {
        Seq::empty()
    } else {
        rows(protocols.drop_last(), ranges) + ranges.map_values(
            |r: PortRange| (protocols.last(), r),
        )
    }
}

/// The rule of a service's configuration for one protocol and port range.
pub open spec fn rule_for(
    cfg: crate::config::ConfigState,
    service: Seq<char>,
    row: (Seq<char>, PortRange),
) -> RuleState {
    RuleState {
        low_port: row.1.low,
        high_port: row.1.high,
        protocol: row.0,
        service,
        dial_timeout: crate::config::timeout_of(cfg),
        allowed_sources: crate::config::sources_of(cfg.allowed_source_addresses),
    }
}

/// The entries of a service for one network.
pub open spec fn entries_for(
    cfg: crate::config::ConfigState,
    service: Seq<char>,
    cidr: IpNet,
) -> Seq<EntryState> {
    rows(cfg.protocols, cfg.port_ranges).map_values(
        |row: (Seq<char>, PortRange)| EntryState { cidr, rule: rule_for(cfg, service, row) },
    )
}

/// The entries of a service for one wildcard domain.
pub open spec fn wildcards_for(
    cfg: crate::config::ConfigState,
    service: Seq<char>,
    suffix: Seq<char>,
) -> Seq<WildcardState> {
    rows(cfg.protocols, cfg.port_ranges).map_values(
        |row: (Seq<char>, PortRange)| WildcardState { suffix, rule: rule_for(cfg, service, row) },
    )
}

impl ResolverState {
    /// The table with one address of a service's configuration installed: a wildcard domain is
    /// registered and gets its entries; a network gets its entries; any other address is a host name,
    /// which is registered and gets the entries of its synthetic address, if it has one.
    pub open spec fn install_one(
        self,
        cfg: crate::config::ConfigState,
        service: Seq<char>,
        addr: Seq<char>,
    ) -> ResolverState {
        if crate::names::has_wildcard_mark(addr) {
            ResolverState {
                dns: self.dns.register(addr, service).0,
                wildcards: match crate::names::name_of(addr) {
                    Some(crate::names::NameSpec::Domain(d)) => self.wildcards + wildcards_for(
                        cfg,
                        service,
                        d,
                    ),
                    _ => self.wildcards,
                },
                ..self
            }
        } else {
            match crate::addr::net_text(addr) {
                Some(cidr) => ResolverState {
                    entries: self.entries + entries_for(cfg, service, cidr),
                    ..self
                },
                None => ResolverState {
                    dns: self.dns.register(addr, service).0,
                    entries: match self.dns.register(addr, service).1 {
                        RegisterOutcome::Hostname(ip) => self.entries + entries_for(
                            cfg,
                            service,
                            IpNet::V4 { addr: ip, prefix: 32 },
                        ),
                        _ => self.entries,
                    },
                    ..self
                },
            }
        }
    }

    /// The table with the first `n` addresses of a service's configuration installed.
    pub open spec fn install(
        self,
        cfg: crate::config::ConfigState,
        service: Seq<char>,
        n: nat,
    ) -> ResolverState
        decreases n,
    {
        if n == 0 {
            self
        } else {
            self.install(cfg, service, (n - 1) as nat).install_one(
                cfg,
                service,
                cfg.addresses[n - 1],
            )
        }
    }

    /// The table without a service, its names and its configuration.
    pub open spec fn without(self, service: Seq<char>) -> ResolverState {
        ResolverState {
            entries: entries_without(self.entries, service),
            wildcards: wildcards_without(self.wildcards, service),
            dns: self.dns.deregister(service),
            installed: self.installed.remove(service),
        }
    }

    /// The networks of the configuration that is installed for a service.
    pub open spec fn routes_of(self, service: Seq<char>) -> Seq<IpNet> {
        if self.installed.contains_key(service) {
            self.installed[service].routes
        } else {
            Seq::empty()
        }
    }

    /// The table after a service was reported with a configuration that is to be installed.
    pub open spec fn replaced(
        self,
        service: Seq<char>,
        raw: Seq<char>,
        cfg: crate::config::ConfigState,
    ) -> ResolverState {
        let cleared = self.without(service);
        ResolverState {
            installed: cleared.installed.insert(
                service,
                InstalledState { raw, routes: crate::config::literal_nets(cfg.addresses) },
            ),
            ..cleared
        }.install(cfg, service, cfg.addresses.len())
    }

    /// The table after a service was reported, and the change: a service that may not be dialled is
    /// taken out; one without a usable configuration leaves the table as it was, and so does one whose
    /// configuration is the one installed; any other is replaced.
    pub open spec fn add(self, svc: &Service) -> (ResolverState, DeltaState) {
        let name = svc.name@;
        let had = self.installed.contains_key(name);
        let none = DeltaState { removed: Seq::empty(), added: Seq::empty(), kill_active: false };
        if !svc.dials() {
            (
                self.without(name),
                DeltaState { removed: self.routes_of(name), added: Seq::empty(), kill_active: had },
            )
        } else if svc.intercept_index() == svc.configs@.len() {
            (self, none)
        } else {
            let c = svc.configs@[svc.intercept_index()];
            match c.intercept {
                Err(_) => (self, none),
                Ok(cfg) => if had && self.installed[name].raw == c.raw@ {
                    (self, none)
                } else {
                    (
                        self.replaced(name, c.raw@, cfg@),
                        DeltaState {
                            removed: self.routes_of(name),
                            added: crate::config::literal_nets(cfg@.addresses),
                            kill_active: had,
                        },
                    )
                },
            }
        }
    }

    /// The table after the first `n` of a list of services were reported.
    pub open spec fn add_all(self, services: Seq<Service>, n: nat) -> ResolverState
        decreases n,
    {
        if n == 0 {
            self
        } else {
            self.add_all(services, (n - 1) as nat).add(&services[n - 1]).0
        }
    }

    /// The table after a change in the services, and the change in the table. A service that is gone
    /// is taken out, and its flows are to be killed whether or not it was in the table.
    pub open spec fn apply(self, ev: &ServiceEvent) -> (ResolverState, DeltaState) {
        match *ev {
            ServiceEvent::Added(svc) => self.add(&svc),
            ServiceEvent::Changed(svc) => self.add(&svc),
            ServiceEvent::Removed(svc) => (
                self.without(svc.name@),
                DeltaState {
                    removed: self.routes_of(svc.name@),
                    added: Seq::empty(),
                    kill_active: true,
                },
            ),
        }
    }

    /// The rule of the service that a flow belongs to: that of the first entry that matches it, and
    /// only where none does, that of the first wildcard entry that claims it by the domain under which
    /// its destination was handed out.
    pub open spec fn lookup(self, f: Flow) -> Option<RuleState> {
        match first_entry(self.entries, f) {
            Some(e) => Some(e.rule),
            None => match f.dst_ip {
                IpAddr::V6(_) => None,
                IpAddr::V4(ip) => match self.dns.reverse_domain(ip) {
                    None => None,
                    Some(domain) => match first_claim(self.wildcards, domain, f) {
                        Some(w) => Some(w.rule),
                        None => None,
                    },
                },
            },
        }
    }

    /// The rule of the service that resolves names under a domain.
    pub open spec fn proxy_service(self, domain: Seq<char>) -> Option<RuleState> {
        match first_of_domain(self.wildcards, domain) {
            Some(w) => Some(w.rule),
            None => None,
        }
    }
}

/// The distinct networks of a list, in the order of their first appearance.
pub open spec fn distinct_nets(s: Seq<IpNet>) -> Seq<IpNet>
    decreases s.len(),
{
    if s.len() == 0 {
        Seq::empty()
    } else if distinct_nets(s.drop_last()).contains(s.last()) {
        distinct_nets(s.drop_last())
    } else {
        distinct_nets(s.drop_last()).push(s.last())
    }
}

/// One entry of the table: a network, a port range and a protocol, and the service that flows to
/// them belong to.
#[derive(Clone, Debug)]
pub struct InterceptEntry {
    pub cidr: IpNet,
    pub low_port: u16,
    pub high_port: u16,
    pub protocol: String,
    pub service: String,
    pub dial_timeout: u64,
    /// The sources that are intercepted; any, where there is no list.
    pub allowed_sources: Option<Vec<IpNet>>,
}

/// One entry for a wildcard domain: it matches no network of its own, but the addresses that were
/// handed out to names under the domain.
#[derive(Clone, Debug)]
pub struct WildcardEntry {
    /// The domain, in lower case and without its wildcard mark.
    pub suffix: String,
    pub low_port: u16,
    pub high_port: u16,
    pub protocol: String,
    pub service: String,
    pub dial_timeout: u64,
    /// The sources that are intercepted; any, where there is no list.
    pub allowed_sources: Option<Vec<IpNet>>,
}

impl View for InterceptEntry {
    type V = EntryState;

    open spec fn view(&self) -> EntryState {
        EntryState {
            cidr: self.cidr,
            rule: RuleState {
                low_port: self.low_port,
                high_port: self.high_port,
                protocol: self.protocol@,
                service: self.service@,
                dial_timeout: self.dial_timeout,
                allowed_sources: crate::config::opt_nets(self.allowed_sources),
            },
        }
    }
}

impl View for WildcardEntry {
    type V = WildcardState;

    open spec fn view(&self) -> WildcardState {
        WildcardState {
            suffix: self.suffix@,
            rule: RuleState {
                low_port: self.low_port,
                high_port: self.high_port,
                protocol: self.protocol@,
                service: self.service@,
                dial_timeout: self.dial_timeout,
                allowed_sources: crate::config::opt_nets(self.allowed_sources),
            },
        }
    }
}

/// Every network of the list, if there is one, is well formed.
pub open spec fn sources_wf(s: Option<Vec<IpNet>>) -> bool {
    s matches Some(v) ==> crate::config::nets_wf(v@)
}

/// Whether a source is admitted.
fn source_allowed(sources: &Option<Vec<IpNet>>, src_ip: IpAddr) -> (r: bool)
    requires
        sources_wf(*sources),
    ensures
        r == crate::config::admits(crate::config::opt_nets(*sources), src_ip),
{
    match sources {
        None => true,
        Some(nets) => {
            let mut i: usize = 0;
            while i < nets.len()
                invariant
                    i <= nets@.len(),
                    *sources == Some(*nets),
                    crate::config::nets_wf(nets@),
                    forall|j: int| 0 <= j < i ==> !(#[trigger] nets@[j]).covers(src_ip),
                decreases nets@.len() - i,
            {
                if nets[i].contains(&src_ip) {
                    proof {
                        let listed = crate::config::opt_nets(*sources)->0;
                        assert(listed[i as int].covers(src_ip));
                    }
                    return true;
                }
                i += 1;
            }
            false
        },
    }
}

impl InterceptEntry {
    pub open spec fn wf(&self) -> bool {
        self.cidr.wf() && sources_wf(self.allowed_sources)
    }

    /// Whether the entry matches the flow.
    pub fn matches(&self, dst_ip: IpAddr, dst_port: u16, proto: Protocol, src_ip: IpAddr) -> (r: bool)
        requires
            self.wf(),
        ensures
            r == self@.matches((Flow { dst_ip, dst_port, proto, src_ip })),
    {
        self.protocol == proto.as_str().to_owned() && self.cidr.contains(&dst_ip) && dst_port
            >= self.low_port && dst_port <= self.high_port && source_allowed(
            &self.allowed_sources,
            src_ip,
        )
    }
}

impl WildcardEntry {
    pub open spec fn wf(&self) -> bool {
        sources_wf(self.allowed_sources)
    }

    /// Whether the entry claims a flow whose destination was handed out under `domain`.
    pub fn claims(&self, domain: &str, dst_port: u16, proto: Protocol, src_ip: IpAddr) -> (r: bool)
        requires
            self.wf(),
        ensures
            forall|dst_ip: IpAddr|
                r == #[trigger] self@.claims(domain@, (Flow { dst_ip, dst_port, proto, src_ip })),
    {
        self.protocol == proto.as_str().to_owned() && self.suffix_matches(domain) && dst_port
            >= self.low_port && dst_port <= self.high_port && source_allowed(
            &self.allowed_sources,
            src_ip,
        )
    }

    /// Whether `domain` is the entry's domain or lies in it.
    pub fn suffix_matches(&self, domain: &str) -> (r: bool)
        ensures
            r == crate::names::lies_in(domain@, self.suffix@),
    {
        is_under(domain, self.suffix.as_str())
    }
}

/// The service that a flow belongs to, and the seconds that its dial may take.
#[derive(Clone, Copy, Debug, PartialEq, Eq)]
pub struct InterceptMatch<'a> {
    pub service: &'a str,
    pub dial_timeout: u64,
}

/// The networks that a change took out of the table and put into it, in the order of the
/// configurations and as often as they have them. Those taken out come first.
#[derive(Clone, Debug, PartialEq, Eq)]
pub struct RouteDelta {
    pub removed: Vec<IpNet>,
    pub added: Vec<IpNet>,
}

impl RouteDelta {
    /// A change that moves nothing.
    pub fn nothing() -> (r: Self)
        ensures
            r.removed@.len() == 0,
            r.added@.len() == 0,
    {
        RouteDelta { removed: Vec::new(), added: Vec::new() }
    }

    /// Whether the change moves nothing.
    pub fn is_empty(&self) -> (r: bool)
        ensures
            r == (self.removed@.len() == 0 && self.added@.len() == 0),
    {
        self.removed.len() == 0 && self.added.len() == 0
    }
}

impl Default for RouteDelta {
    fn default() -> (r: Self)
        ensures
            r.removed@.len() == 0,
            r.added@.len() == 0,
    {
        RouteDelta::nothing()
    }
}

/// What a change in the services asks of the rest of the system: the routes that move, and whether the
/// live flows of the service are to be killed.
#[derive(Clone, Debug, PartialEq, Eq)]
pub struct AppliedEvent {
    pub routes: RouteDelta,
    pub kill_active: bool,
}

impl AppliedEvent {
    /// A change that asks for nothing.
    pub fn nothing() -> (r: Self)
        ensures
            r@ == (DeltaState { removed: Seq::empty(), added: Seq::empty(), kill_active: false }),
    {
        let r = AppliedEvent { routes: RouteDelta::nothing(), kill_active: false };
        assert(r@.removed =~= Seq::empty());
        assert(r@.added =~= Seq::empty());
        r
    }
}

impl View for AppliedEvent {
    type V = DeltaState;

    open spec fn view(&self) -> DeltaState {
        DeltaState {
            removed: self.routes.removed@,
            added: self.routes.added@,
            kill_active: self.kill_active,
        }
    }
}

impl Default for AppliedEvent {
    fn default() -> (r: Self)
        ensures
            r@ == (DeltaState { removed: Seq::empty(), added: Seq::empty(), kill_active: false }),
    {
        AppliedEvent::nothing()
    }
}

/// The configuration that is installed for a service.
#[derive(Clone, Debug)]
struct Installed {
    raw: String,
    routes: Vec<IpNet>,
}

impl View for Installed {
    type V = InstalledState;

    closed spec fn view(&self) -> InstalledState {
        InstalledState { raw: self.raw@, routes: self.routes@ }
    }
}

/// The table of intercepts.
#[derive(Clone, Debug)]
pub struct InterceptResolver {
    entries: Vec<InterceptEntry>,
    wildcards: Vec<WildcardEntry>,
    dns: DnsMatcher,
    installed_configs: Table<String, Installed>,
}

spec fn entry_states(s: Seq<InterceptEntry>) -> Seq<EntryState> {
    s.map_values(|e: InterceptEntry| e@)
}

spec fn wildcard_states(s: Seq<WildcardEntry>) -> Seq<WildcardState> {
    s.map_values(|e: WildcardEntry| e@)
}

spec fn all_entries_wf(s: Seq<InterceptEntry>) -> bool {
    forall|i: int| 0 <= i < s.len() ==> (#[trigger] s[i]).wf()
}

spec fn all_wildcards_wf(s: Seq<WildcardEntry>) -> bool {
    forall|i: int| 0 <= i < s.len() ==> (#[trigger] s[i]).wf()
}

impl View for InterceptResolver {
    type V = ResolverState;

    closed spec fn view(&self) -> ResolverState {
        ResolverState {
            entries: entry_states(self.entries@),
            wildcards: wildcard_states(self.wildcards@),
            dns: self.dns@,
            installed: self.installed_configs@.map_values(|i: Installed| i@),
        }
    }
}

/// The table without services, over a registry.
pub open spec fn empty_table(dns: crate::dns::DnsState) -> ResolverState {
    ResolverState { entries: Seq::empty(), wildcards: Seq::empty(), dns, installed: Map::empty() }
}

/// A copy of a list of networks.
fn copy_nets(nets: &Vec<IpNet>) -> (r: Vec<IpNet>)
    ensures
        r@ == nets@,
{
    let mut out: Vec<IpNet> = Vec::new();
    let mut i: usize = 0;
    while i < nets.len()
        invariant
            i <= nets@.len(),
            out@ == nets@.take(i as int),
        decreases nets@.len() - i,
    {
        out.push(nets[i]);
        i += 1;
        assert(out@ =~= nets@.take(i as int));
    }
    assert(nets@.take(i as int) =~= nets@);
    out
}

fn copy_sources(sources: &Option<Vec<IpNet>>) -> (r: Option<Vec<IpNet>>)
    ensures
        crate::config::opt_nets(r) == crate::config::opt_nets(*sources),
{
    match sources {
        Some(nets) => Some(copy_nets(nets)),
        None => None,
    }
}

spec fn row_states(s: Seq<(String, PortRange)>) -> Seq<(Seq<char>, PortRange)> {
    s.map_values(|r: (String, PortRange)| (r.0@, r.1))
}

/// The pairs of a protocol and a port range of a configuration.
fn rows_of(cfg: &InterceptV1Config) -> (r: Vec<(String, PortRange)>)
    ensures
        row_states(r@) == rows(cfg@.protocols, cfg@.port_ranges),
{
    let mut out: Vec<(String, PortRange)> = Vec::new();
    let ranges: &Vec<PortRange> = &cfg.port_ranges;
    let mut i: usize = 0;
    assert(row_states(out@) =~= rows(cfg@.protocols.take(0), ranges@));
    while i < cfg.protocols.len()
        invariant
            i <= cfg.protocols@.len(),
            ranges@ == cfg@.port_ranges,
            row_states(out@) == rows(cfg@.protocols.take(i as int), ranges@),
        decreases cfg.protocols@.len() - i,
    {
        let ghost base = rows(cfg@.protocols.take(i as int), ranges@);
        let ghost proto = cfg.protocols@[i as int]@;
        let ghost line = |r: PortRange| (proto, r);
        let mut j: usize = 0;
        assert(base + ranges@.take(0).map_values(line) =~= base);
        while j < ranges.len()
            invariant
                i < cfg.protocols@.len(),
                j <= ranges@.len(),
                proto == cfg.protocols@[i as int]@,
                line == (|r: PortRange| (proto, r)),
                row_states(out@) == base + ranges@.take(j as int).map_values(line),
            decreases ranges@.len() - j,
        {
            let ghost before = out@;
            out.push((cfg.protocols[i].clone(), ranges[j]));
            j += 1;
            proof {
                let last = ranges@[j - 1];
                assert(row_states(out@) =~= row_states(before).push((proto, last)));
                assert(ranges@.take(j as int) =~= ranges@.take(j - 1).push(last));
                assert(ranges@.take(j as int).map_values(line) =~= ranges@.take(j - 1).map_values(
                    line,
                ).push((proto, last)));
                assert(row_states(out@) =~= base + ranges@.take(j as int).map_values(line));
            }
        }
        proof {
            assert(ranges@.take(j as int) =~= ranges@);
            let now = cfg@.protocols.take(i + 1);
            assert(now.drop_last() =~= cfg@.protocols.take(i as int));
            assert(now.last() == proto);
        }
        i += 1;
    }
    assert(cfg@.protocols.take(i as int) =~= cfg@.protocols);
    out
}

impl Default for InterceptResolver {
    fn default() -> (r: Self)
        ensures
            r.wf(),
            r.view() == empty_table(
                crate::dns::DnsState {
                    pool: None,
                    reserved: Set::empty(),
                    hosts: Map::empty(),
                    domains: Map::empty(),
                },
            ),
    {
        InterceptResolver::from_services(&Vec::new())
    }
}

impl InterceptResolver {
    /// What holds of every table.
    pub closed spec fn wf(&self) -> bool {
        &&& all_entries_wf(self.entries@)
        &&& all_wildcards_wf(self.wildcards@)
        &&& self.dns.wf()
        &&& self.installed_configs.wf()
        &&& forall|n: Seq<char>| #[trigger]
            self.installed_configs@.contains_key(n) ==> crate::config::nets_wf(
                self.installed_configs@[n].routes@,
            )
    }

    /// The table of a list of services, over a registry without a pool.
    pub fn from_services(services: &Vec<Service>) -> (r: Self)
        ensures
            r.wf(),
            r@ == empty_table(
                crate::dns::DnsState {
                    pool: None,
                    reserved: Set::empty(),
                    hosts: Map::empty(),
                    domains: Map::empty(),
                },
            ).add_all(services@, services@.len()),
    {
        InterceptResolver::from_services_with_dns(services, DnsMatcher::new())
    }

    /// The table of a list of services, over a registry: each service is added in the list's order.
    pub fn from_services_with_dns(services: &Vec<Service>, dns: DnsMatcher) -> (r: Self)
        requires
            dns.wf(),
        ensures
            r.wf(),
            r@ == empty_table(dns@).add_all(services@, services@.len()),
    {
        let ghost start = empty_table(dns@);
        let mut resolver = InterceptResolver {
            entries: Vec::new(),
            wildcards: Vec::new(),
            dns,
            installed_configs: Table::new(),
        };
        proof {
            assert(resolver@.entries =~= start.entries);
            assert(resolver@.wildcards =~= start.wildcards);
            assert(resolver@.installed =~= start.installed);
        }
        let mut i: usize = 0;
        while i < services.len()
            invariant
                i <= services@.len(),
                resolver.wf(),
                resolver@ == start.add_all(services@, i as nat),
            decreases services@.len() - i,
        {
            let _ = resolver.add_service(&services[i]);
            i += 1;
        }
        resolver
    }

    /// Appends the entries of a service for one network.
    fn push_entries(
        &mut self,
        cidr: IpNet,
        rows: &Vec<(String, PortRange)>,
        service: &String,
        dial_timeout: u64,
        sources: &Option<Vec<IpNet>>,
        cfg: &InterceptV1Config,
    )
        requires
            old(self).wf(),
            cidr.wf(),
            sources_wf(*sources),
            row_states(rows@) == self::rows(cfg@.protocols, cfg@.port_ranges),
            dial_timeout == crate::config::timeout_of(cfg@),
            crate::config::opt_nets(*sources) == crate::config::sources_of(
                cfg@.allowed_source_addresses,
            ),
        ensures
            final(self).wf(),
            final(self)@ == (ResolverState {
                entries: old(self)@.entries + entries_for(cfg@, service@, cidr),
                ..old(self)@
            }),
    {
        let ghost before = self@;
        let ghost added = entries_for(cfg@, service@, cidr);
        let mut i: usize = 0;
        assert(before.entries + added.take(0) =~= before.entries);
        while i < rows.len()
            invariant
                i <= rows@.len(),
                rows@.len() == added.len(),
                self.wf(),
                cidr.wf(),
                sources_wf(*sources),
                row_states(rows@) == self::rows(cfg@.protocols, cfg@.port_ranges),
                dial_timeout == crate::config::timeout_of(cfg@),
                crate::config::opt_nets(*sources) == crate::config::sources_of(
                    cfg@.allowed_source_addresses,
                ),
                added == entries_for(cfg@, service@, cidr),
                self@ == (ResolverState { entries: before.entries + added.take(i as int), ..before }),
            decreases rows@.len() - i,
        {
            let ghost was = self.entries@;
            let entry = InterceptEntry {
                cidr,
                low_port: rows[i].1.low,
                high_port: rows[i].1.high,
                protocol: rows[i].0.clone(),
                service: service.clone(),
                dial_timeout,
                allowed_sources: copy_sources(sources),
            };
            proof {
                let row = row_states(rows@)[i as int];
                assert(row == (rows@[i as int].0@, rows@[i as int].1));
                assert(entry@ == added[i as int]);
            }
            self.entries.push(entry);
            i += 1;
            assert(entry_states(self.entries@) =~= entry_states(was).push(added[i - 1]));
            assert(self@.entries =~= before.entries + added.take(i as int));
        }
        assert(added.take(i as int) =~= added);
    }

    /// Appends the entries of a service for one wildcard domain.
    fn push_wildcards(
        &mut self,
        suffix: &String,
        rows: &Vec<(String, PortRange)>,
        service: &String,
        dial_timeout: u64,
        sources: &Option<Vec<IpNet>>,
        cfg: &InterceptV1Config,
    )
        requires
            old(self).wf(),
            sources_wf(*sources),
            row_states(rows@) == self::rows(cfg@.protocols, cfg@.port_ranges),
            dial_timeout == crate::config::timeout_of(cfg@),
            crate::config::opt_nets(*sources) == crate::config::sources_of(
                cfg@.allowed_source_addresses,
            ),
        ensures
            final(self).wf(),
            final(self)@ == (ResolverState {
                wildcards: old(self)@.wildcards + wildcards_for(cfg@, service@, suffix@),
                ..old(self)@
            }),
    {
        let ghost before = self@;
        let ghost added = wildcards_for(cfg@, service@, suffix@);
        let mut i: usize = 0;
        assert(before.wildcards + added.take(0) =~= before.wildcards);
        while i < rows.len()
            invariant
                i <= rows@.len(),
                rows@.len() == added.len(),
                self.wf(),
                sources_wf(*sources),
                row_states(rows@) == self::rows(cfg@.protocols, cfg@.port_ranges),
                dial_timeout == crate::config::timeout_of(cfg@),
                crate::config::opt_nets(*sources) == crate::config::sources_of(
                    cfg@.allowed_source_addresses,
                ),
                added == wildcards_for(cfg@, service@, suffix@),
                self@ == (ResolverState {
                    wildcards: before.wildcards + added.take(i as int),
                    ..before
                }),
            decreases rows@.len() - i,
        {
            let ghost was = self.wildcards@;
            let entry = WildcardEntry {
                suffix: suffix.clone(),
                low_port: rows[i].1.low,
                high_port: rows[i].1.high,
                protocol: rows[i].0.clone(),
                service: service.clone(),
                dial_timeout,
                allowed_sources: copy_sources(sources),
            };
            proof {
                let row = row_states(rows@)[i as int];
                assert(row == (rows@[i as int].0@, rows@[i as int].1));
                assert(entry@ == added[i as int]);
            }
            self.wildcards.push(entry);
            i += 1;
            assert(wildcard_states(self.wildcards@) =~= wildcard_states(was).push(added[i - 1]));
            assert(self@.wildcards =~= before.wildcards + added.take(i as int));
        }
        assert(added.take(i as int) =~= added);
    }

    /// Reconciles the table with a service as it was reported.
    pub fn add_service(&mut self, svc: &Service) -> (r: AppliedEvent)
        requires
            old(self).wf(),
        ensures
            final(self).wf(),
            final(self)@ == old(self)@.add(svc).0,
            r@ == old(self)@.add(svc).1,
            crate::config::nets_wf(r.routes.removed@),
            crate::config::nets_wf(r.routes.added@),
    {
        let ghost before = self@;
        let had_installed: bool = self.installed_configs.contains(&svc.name);
        assert(had_installed == before.installed.contains_key(svc.name@));
        if !svc.can_dial() {
            let removed: Vec<IpNet> = self.remove_service(svc.name.as_str());
            return AppliedEvent {
                routes: RouteDelta { removed, added: Vec::new() },
                kill_active: had_installed,
            };
        }
        let (raw, cfg): (&String, &InterceptV1Config) = match svc.find_intercept() {
            Some(ServiceConfig { raw, intercept: Ok(cfg), .. }) => (raw, cfg),
            _ => {
                return AppliedEvent::nothing();
            },
        };
        let unchanged: bool = match self.installed_configs.get(&svc.name) {
            Some(i) => i.raw == *raw,
            None => false,
        };
        if unchanged {
            return AppliedEvent::nothing();
        }
        let removed: Vec<IpNet> = self.remove_service(svc.name.as_str());
        let ghost cleared = self@;
        let added: Vec<IpNet> = literal_addrs(cfg);
        let routes: Vec<IpNet> = copy_nets(&added);
        self.installed_configs.insert(svc.name.clone(), Installed { raw: raw.clone(), routes });
        let ghost start = ResolverState {
            installed: cleared.installed.insert(
                svc.name@,
                InstalledState { raw: raw@, routes: added@ },
            ),
            ..cleared
        };
        assert(self@.installed =~= start.installed);
        self.install(cfg, &svc.name);
        AppliedEvent { routes: RouteDelta { removed, added }, kill_active: had_installed }
    }

    /// Installs every address of a service's configuration.
    fn install(&mut self, cfg: &InterceptV1Config, name: &String)
        requires
            old(self).wf(),
        ensures
            final(self).wf(),
            final(self)@ == old(self)@.install(cfg@, name@, cfg@.addresses.len()),
    {
        let ghost start = self@;
        let dial_timeout: u64 = dial_timeout_for(cfg);
        let sources: Option<Vec<IpNet>> = build_allowed_sources(&cfg.allowed_source_addresses);
        let rows: Vec<(String, PortRange)> = rows_of(cfg);
        let mut i: usize = 0;
        while i < cfg.addresses.len()
            invariant
                i <= cfg.addresses@.len(),
                self.wf(),
                sources_wf(sources),
                row_states(rows@) == self::rows(cfg@.protocols, cfg@.port_ranges),
                dial_timeout == crate::config::timeout_of(cfg@),
                crate::config::opt_nets(sources) == crate::config::sources_of(
                    cfg@.allowed_source_addresses,
                ),
                self@ == start.install(cfg@, name@, i as nat),
            decreases cfg.addresses@.len() - i,
        {
            let ghost here = self@;
            let addr: &str = cfg.addresses[i].as_str();
            assert(cfg@.addresses[i as int] == addr@);
            if is_wildcard(addr) {
                let _ = self.dns.register(addr, name.as_str());
                let ghost registered = self@;
                match DnsMatcher::wildcard_suffix(addr) {
                    Some(suffix) => {
                        self.push_wildcards(&suffix, &rows, name, dial_timeout, &sources, cfg);
                    },
                    None => {},
                }
                assert(self@ == here.install_one(cfg@, name@, addr@));
            } else {
                match parse_ip_or_cidr(addr) {
                    Some(cidr) => {
                        self.push_entries(cidr, &rows, name, dial_timeout, &sources, cfg);
                    },
                    None => match self.dns.register(addr, name.as_str()) {
                        RegisterOutcome::Hostname(ip) => {
                            let cidr = IpNet::V4 { addr: ip, prefix: 32 };
                            self.push_entries(cidr, &rows, name, dial_timeout, &sources, cfg);
                        },
                        _ => {},
                    },
                }
                assert(self@ == here.install_one(cfg@, name@, addr@));
            }
            i += 1;
        }
    }

    /// Takes a service out of the table, with its names and its configuration, and gives the networks
    /// of that configuration.
    pub fn remove_service(&mut self, name: &str) -> (r: Vec<IpNet>)
        requires
            old(self).wf(),
        ensures
            final(self).wf(),
            final(self)@ == old(self)@.without(name@),
            r@ == old(self)@.routes_of(name@),
            crate::config::nets_wf(r@),
    {
        let ghost before = *self;
        let owned: String = name.to_owned();
        let mut entries: Vec<InterceptEntry> = Vec::new();
        std::mem::swap(&mut entries, &mut self.entries);
        self.entries = keep_entries(entries, &owned);
        let mut wildcards: Vec<WildcardEntry> = Vec::new();
        std::mem::swap(&mut wildcards, &mut self.wildcards);
        self.wildcards = keep_wildcards(wildcards, &owned);
        let removed: Vec<IpNet> = match self.installed_configs.remove(&owned) {
            Some(i) => i.routes,
            None => Vec::new(),
        };
        self.dns.deregister_intercept(name);
        proof {
            assert(self@.installed =~= before@.installed.remove(name@));
            if !before.installed_configs@.contains_key(name@) {
                assert(removed@ =~= Seq::<IpNet>::empty());
            }
        }
        removed
    }

    /// Applies a change in the services.
    pub fn apply_event(&mut self, ev: &ServiceEvent) -> (r: AppliedEvent)
        requires
            old(self).wf(),
        ensures
            final(self).wf(),
            final(self)@ == old(self)@.apply(ev).0,
            r@ == old(self)@.apply(ev).1,
            crate::config::nets_wf(r.routes.removed@),
            crate::config::nets_wf(r.routes.added@),
    {
        match ev {
            ServiceEvent::Added(svc) => self.add_service(svc),
            ServiceEvent::Changed(svc) => self.add_service(svc),
            ServiceEvent::Removed(svc) => AppliedEvent {
                routes: RouteDelta {
                    removed: self.remove_service(svc.name.as_str()),
                    added: Vec::new(),
                },
                kill_active: true,
            },
        }
    }

    /// The service that a flow belongs to, if it belongs to one.
    pub fn lookup(
        &self,
        dst_ip: IpAddr,
        dst_port: u16,
        proto: Protocol,
        src_ip: IpAddr,
    ) -> (r: Option<InterceptMatch<'_>>)
        requires
            self.wf(),
        ensures
            match (r, self@.lookup((Flow { dst_ip, dst_port, proto, src_ip }))) {
                (Some(m), Some(rule)) => m.service@ == rule.service && m.dial_timeout
                    == rule.dial_timeout,
                (None, None) => true,
                _ => false,
            },
    {
        let ghost f = Flow { dst_ip, dst_port, proto, src_ip };
        let ghost all = self@.entries;
        let mut i: usize = 0;
        while i < self.entries.len()
            invariant
                i <= self.entries@.len(),
                self.wf(),
                all == entry_states(self.entries@),
                all == self@.entries,
                f == (Flow { dst_ip, dst_port, proto, src_ip }),
                first_entry(all.take(i as int), f) is None,
            decreases self.entries@.len() - i,
        {
            let e: &InterceptEntry = &self.entries[i];
            proof {
                assert(all.take(i + 1).drop_last() =~= all.take(i as int));
                assert(all.take(i + 1).last() == e@);
            }
            if e.matches(dst_ip, dst_port, proto, src_ip) {
                proof {
                    lemma_first_entry_stays(all, i + 1, f);
                }
                return Some(
                    InterceptMatch { service: e.service.as_str(), dial_timeout: e.dial_timeout },
                );
            }
            i += 1;
        }
        assert(all.take(i as int) =~= all);
        let v4: u32 = match dst_ip {
            IpAddr::V4(v4) => v4,
            IpAddr::V6(_) => {
                return None;
            },
        };
        let domain: &str = match self.dns.reverse_lookup_domain(v4) {
            Some(domain) => domain,
            None => {
                return None;
            },
        };
        let ghost claims = self@.wildcards;
        let mut j: usize = 0;
        while j < self.wildcards.len()
            invariant
                j <= self.wildcards@.len(),
                self.wf(),
                claims == wildcard_states(self.wildcards@),
                claims == self@.wildcards,
                f == (Flow { dst_ip, dst_port, proto, src_ip }),
                dst_ip == IpAddr::V4(v4),
                first_entry(self@.entries, f) is None,
                self@.dns.reverse_domain(v4) == Some(domain@),
                first_claim(claims.take(j as int), domain@, f) is None,
            decreases self.wildcards@.len() - j,
        {
            let w: &WildcardEntry = &self.wildcards[j];
            proof {
                assert(claims.take(j + 1).drop_last() =~= claims.take(j as int));
                assert(claims.take(j + 1).last() == w@);
                assert(w@.claims(domain@, f) == w@.claims(
                    domain@,
                    (Flow { dst_ip, dst_port, proto, src_ip }),
                ));
            }
            if w.claims(domain, dst_port, proto, src_ip) {
                proof {
                    lemma_first_claim_stays(claims, j + 1, domain@, f);
                }
                return Some(
                    InterceptMatch { service: w.service.as_str(), dial_timeout: w.dial_timeout },
                );
            }
            j += 1;
        }
        assert(claims.take(j as int) =~= claims);
        None
    }

    /// The service that resolves names under exactly this domain: the first that claims it.
    pub fn proxy_service(&self, domain: &str) -> (r: Option<InterceptMatch<'_>>)
        requires
            self.wf(),
        ensures
            match (r, self@.proxy_service(domain@)) {
                (Some(m), Some(rule)) => m.service@ == rule.service && m.dial_timeout
                    == rule.dial_timeout,
                (None, None) => true,
                _ => false,
            },
    {
        let owned: String = domain.to_owned();
        let ghost all = self@.wildcards;
        let mut j: usize = 0;
        while j < self.wildcards.len()
            invariant
                j <= self.wildcards@.len(),
                owned@ == domain@,
                all == wildcard_states(self.wildcards@),
                all == self@.wildcards,
                first_of_domain(all.take(j as int), domain@) is None,
            decreases self.wildcards@.len() - j,
        {
            let w: &WildcardEntry = &self.wildcards[j];
            proof {
                assert(all.take(j + 1).drop_last() =~= all.take(j as int));
                assert(all.take(j + 1).last() == w@);
            }
            if w.suffix == owned {
                proof {
                    lemma_first_of_domain_stays(all, j + 1, domain@);
                }
                return Some(
                    InterceptMatch { service: w.service.as_str(), dial_timeout: w.dial_timeout },
                );
            }
            j += 1;
        }
        assert(all.take(j as int) =~= all);
        None
    }

    /// Whether no flow can belong to a service.
    pub fn is_empty(&self) -> (r: bool)
        ensures
            r == (self@.entries.len() == 0 && self@.wildcards.len() == 0),
    {
        self.entries.len() == 0 && self.wildcards.len() == 0
    }

    /// The registry of names.
    pub fn dns(&self) -> (r: &DnsMatcher)
        requires
            self.wf(),
        ensures
            r.wf(),
            r@ == self@.dns,
    {
        &self.dns
    }

    /// The registry of names, to be changed: a name query hands out addresses.
    pub fn dns_mut(&mut self) -> (r: &mut DnsMatcher)
        requires
            old(self).wf(),
        ensures
            r.wf(),
            r@ == old(self)@.dns,
            final(r).wf() ==> final(self).wf(),
            final(self)@ == (ResolverState { dns: final(r)@, ..old(self)@ }),
    {
        &mut self.dns
    }

    /// The networks of the entries, each once, in the order of their first appearance.
    pub fn intercept_cidrs(&self) -> (r: Vec<IpNet>)
        requires
            self.wf(),
        ensures
            r@ == distinct_nets(self@.entries.map_values(|e: EntryState| e.cidr)),
            crate::config::nets_wf(r@),
    {
        let mut out: Vec<IpNet> = Vec::new();
        let ghost all = self@.entries.map_values(|e: EntryState| e.cidr);
        let mut i: usize = 0;
        while i < self.entries.len()
            invariant
                i <= self.entries@.len(),
                self.wf(),
                all == self@.entries.map_values(|e: EntryState| e.cidr),
                all.len() == self.entries@.len(),
                crate::config::nets_wf(out@),
                out@ == distinct_nets(all.take(i as int)),
            decreases self.entries@.len() - i,
        {
            let cidr: IpNet = self.entries[i].cidr;
            proof {
                assert(all.take(i + 1).drop_last() =~= all.take(i as int));
                assert(all.take(i + 1).last() == cidr);
            }
            if !lists_net(&out, cidr) {
                out.push(cidr);
            }
            i += 1;
        }
        assert(all.take(i as int) =~= all);
        out
    }
}

/// Whether a list has a network.
pub fn lists_net(nets: &Vec<IpNet>, net: IpNet) -> (r: bool)
    ensures
        r == nets@.contains(net),
{
    let mut i: usize = 0;
    while i < nets.len()
        invariant
            i <= nets@.len(),
            forall|j: int| 0 <= j < i ==> nets@[j] != net,
        decreases nets@.len() - i,
    {
        if nets[i] == net {
            assert(nets@[i as int] == net);
            return true;
        }
        i += 1;
    }
    false
}

proof fn lemma_first_entry_stays(entries: Seq<EntryState>, n: int, f: Flow)
    requires
        0 <= n <= entries.len(),
        first_entry(entries.take(n), f) is Some,
    ensures
        first_entry(entries, f) == first_entry(entries.take(n), f),
    decreases entries.len() - n,
{
    if n == entries.len() {
        assert(entries.take(n) =~= entries);
    } else {
        assert(entries.take(n + 1).drop_last() =~= entries.take(n));
        lemma_first_entry_stays(entries, n + 1, f);
    }
}

proof fn lemma_first_claim_stays(wildcards: Seq<WildcardState>, n: int, domain: Seq<char>, f: Flow)
    requires
        0 <= n <= wildcards.len(),
        first_claim(wildcards.take(n), domain, f) is Some,
    ensures
        first_claim(wildcards, domain, f) == first_claim(wildcards.take(n), domain, f),
    decreases wildcards.len() - n,
{
    if n == wildcards.len() {
        assert(wildcards.take(n) =~= wildcards);
    } else {
        assert(wildcards.take(n + 1).drop_last() =~= wildcards.take(n));
        lemma_first_claim_stays(wildcards, n + 1, domain, f);
    }
}

proof fn lemma_first_of_domain_stays(wildcards: Seq<WildcardState>, n: int, domain: Seq<char>)
    requires
        0 <= n <= wildcards.len(),
        first_of_domain(wildcards.take(n), domain) is Some,
    ensures
        first_of_domain(wildcards, domain) == first_of_domain(wildcards.take(n), domain),
    decreases wildcards.len() - n,
{
    if n == wildcards.len() {
        assert(wildcards.take(n) =~= wildcards);
    } else {
        assert(wildcards.take(n + 1).drop_last() =~= wildcards.take(n));
        lemma_first_of_domain_stays(wildcards, n + 1, domain);
    }
}

/// The entries that are not those of a service.
fn keep_entries(entries: Vec<InterceptEntry>, service: &String) -> (r: Vec<InterceptEntry>)
    requires
        all_entries_wf(entries@),
    ensures
        all_entries_wf(r@),
        entry_states(r@) == entries_without(entry_states(entries@), service@),
{
    let mut out: Vec<InterceptEntry> = Vec::new();
    let ghost all = entries@;
    assert(entry_states(out@) =~= entries_without(entry_states(all).take(0), service@));
    for e in it: entries.into_iter()
        invariant
            it.seq() == all,
            all_entries_wf(all),
            all_entries_wf(out@),
            entry_states(out@) == entries_without(
                entry_states(all).take(it.index() as int),
                service@,
            ),
    {
        let ghost i = it.index() as int;
        let ghost was = out@;
        proof {
            let now = entry_states(all).take(i + 1);
            assert(now.drop_last() =~= entry_states(all).take(i));
            assert(now.last() == e@);
        }
        if e.service != *service {
            out.push(e);
            assert(entry_states(out@) =~= entry_states(was).push(e@));
        }
    }
    assert(entry_states(all).take(all.len() as int) =~= entry_states(all));
    out
}

/// The wildcard entries that are not those of a service.
fn keep_wildcards(wildcards: Vec<WildcardEntry>, service: &String) -> (r: Vec<WildcardEntry>)
    requires
        all_wildcards_wf(wildcards@),
    ensures
        all_wildcards_wf(r@),
        wildcard_states(r@) == wildcards_without(wildcard_states(wildcards@), service@),
{
    let mut out: Vec<WildcardEntry> = Vec::new();
    let ghost all = wildcards@;
    assert(wildcard_states(out@) =~= wildcards_without(wildcard_states(all).take(0), service@));
    for e in it: wildcards.into_iter()
        invariant
            it.seq() == all,
            all_wildcards_wf(all),
            all_wildcards_wf(out@),
            wildcard_states(out@) == wildcards_without(
                wildcard_states(all).take(it.index() as int),
                service@,
            ),
    {
        let ghost i = it.index() as int;
        let ghost was = out@;
        proof {
            let now = wildcard_states(all).take(i + 1);
            assert(now.drop_last() =~= wildcard_states(all).take(i));
            assert(now.last() == e@);
        }
        if e.service != *service {
            out.push(e);
            assert(wildcard_states(out@) =~= wildcard_states(was).push(e@));
        }
    }
    assert(wildcard_states(all).take(all.len() as int) =~= wildcard_states(all));
    out
}

} // verus!
