//! Services as the controller reports them, and their `intercept.v1` configuration.

use vstd::prelude::*;

use crate::addr::{parse_ip_or_cidr, IpNet};
use crate::text::chars_of;

verus! {

/// The name of the configuration type that says what a service intercepts.
pub const INTERCEPT_V1_CONFIG_TYPE: &'static str = "intercept.v1";

/// The permission without which a service is not intercepted.
pub const DIAL_PERMISSION: &'static str = "Dial";

/// Seconds that a dial may take where the service's configuration does not say.
pub const INTERCEPT_DIAL_TIMEOUT: u64 = 5;

/// Seconds that a dial may take where the configuration says zero.
pub const DEFAULT_CONNECT_TIMEOUT: u64 = 15;

/// A range of ports, both ends included.
#[derive(Clone, Copy, Debug, PartialEq, Eq, Structural)]
pub struct PortRange {
    pub low: u16,
    pub high: u16,
}

/// How a service wants to be dialled.
#[derive(Clone, Debug, PartialEq, Eq)]
pub struct DialOptions {
    /// Seconds that a dial may take.
    pub connect_timeout_seconds: Option<u32>,
    /// The identity of the terminator to dial.
    pub identity: Option<String>,
}

/// What a service intercepts: each of its addresses, on each protocol and port range, from the
/// sources that it allows.
#[derive(Clone, Debug, PartialEq, Eq)]
pub struct InterceptV1Config {
    pub protocols: Vec<String>,
    /// Addresses, networks, host names and wildcard domains.
    pub addresses: Vec<String>,
    pub port_ranges: Vec<PortRange>,
    pub dial_options: Option<DialOptions>,
    pub source_ip: Option<String>,
    /// The sources that may be intercepted; any, if there is none.
    pub allowed_source_addresses: Vec<String>,
}

/// The texts of a list.
pub open spec fn texts(s: Seq<String>) -> Seq<Seq<char>> {
    s.map_values(|x: String| x@)
}

/// What the rules of interception read of a configuration.
pub struct ConfigState {
    pub protocols: Seq<Seq<char>>,
    pub addresses: Seq<Seq<char>>,
    pub port_ranges: Seq<PortRange>,
    pub connect_timeout_seconds: Option<u32>,
    pub allowed_source_addresses: Seq<Seq<char>>,
}

impl View for InterceptV1Config {
    type V = ConfigState;

    open spec fn view(&self) -> ConfigState {
        ConfigState {
            protocols: texts(self.protocols@),
            addresses: texts(self.addresses@),
            port_ranges: self.port_ranges@,
            connect_timeout_seconds: match self.dial_options {
                Some(o) => o.connect_timeout_seconds,
                None => None,
            },
            allowed_source_addresses: texts(self.allowed_source_addresses@),
        }
    }
}

impl Default for InterceptV1Config {
    fn default() -> (r: Self)
        ensures
            r.protocols@.len() == 0,
            r.addresses@.len() == 0,
            r.port_ranges@.len() == 0,
            r.dial_options is None,
            r.source_ip is None,
            r.allowed_source_addresses@.len() == 0,
    {
        InterceptV1Config {
            protocols: Vec::new(),
            addresses: Vec::new(),
            port_ranges: Vec::new(),
            dial_options: None,
            source_ip: None,
            allowed_source_addresses: Vec::new(),
        }
    }
}

impl Default for DialOptions {
    fn default() -> (r: Self)
        ensures
            r.connect_timeout_seconds is None,
            r.identity is None,
    {
        DialOptions { connect_timeout_seconds: None, identity: None }
    }
}

/// One configuration of a service: its type, its JSON text in canonical form, and what came of
/// reading it as an `intercept.v1` configuration, the message of the failure if it is none.
#[derive(Debug)]
pub struct ServiceConfig {
    pub config_type: String,
    pub raw: String,
    pub intercept: Result<InterceptV1Config, String>,
}

/// A service that the identity may use.
#[derive(Debug)]
pub struct Service {
    pub name: String,
    pub permissions: Vec<String>,
    pub configs: Vec<ServiceConfig>,
}

/// A change in the services that the identity may use.
#[derive(Debug)]
pub enum ServiceEvent {
    Added(Service),
    Changed(Service),
    Removed(Service),
}

/// Why a service's configuration cannot be used.
#[derive(Debug, PartialEq, Eq)]
pub enum EdgeError {
    /// The configuration is there but does not read as its type.
    ServiceConfig { config_type: String, message: String },
}

impl Service {
    /// Whether the identity may dial the service.
    pub open spec fn dials(&self) -> bool {
        exists|i: int|
            0 <= i < self.permissions@.len() && (#[trigger] self.permissions@[i])@ == DIAL_PERMISSION@
    }

    /// The position of the service's `intercept.v1` configuration; its number of configurations, where
    /// it has none.
    pub open spec fn intercept_index(&self) -> int {
        first_of_type(self.configs@, INTERCEPT_V1_CONFIG_TYPE@)
    }

    /// Whether the identity may dial the service.
    pub fn can_dial(&self) -> (r: bool)
        ensures
            r == self.dials(),
    {
        let dial: String = DIAL_PERMISSION.to_owned();
        let mut i: usize = 0;
        while i < self.permissions.len()
            invariant
                i <= self.permissions@.len(),
                dial@ == DIAL_PERMISSION@,
                forall|j: int| 0 <= j < i ==> (#[trigger] self.permissions@[j])@ != dial@,
            decreases self.permissions@.len() - i,
        {
            if self.permissions[i] == dial {
                return true;
            }
            i += 1;
        }
        false
    }

    /// The service's `intercept.v1` configuration.
    pub fn find_intercept(&self) -> (r: Option<&ServiceConfig>)
        ensures
            match r {
                Some(c) => 0 <= self.intercept_index() < self.configs@.len() && *c
                    == self.configs@[self.intercept_index()],
                None => self.intercept_index() == self.configs@.len(),
            },
    {
        let wanted: String = INTERCEPT_V1_CONFIG_TYPE.to_owned();
        let mut i: usize = 0;
        assert(self.configs@.skip(0) =~= self.configs@);
        while i < self.configs.len()
            invariant
                i <= self.configs@.len(),
                wanted@ == INTERCEPT_V1_CONFIG_TYPE@,
                self.intercept_index() == i + first_of_type(
                    self.configs@.skip(i as int),
                    INTERCEPT_V1_CONFIG_TYPE@,
                ),
            decreases self.configs@.len() - i,
        {
            assert(self.configs@.skip(i as int).skip(1) =~= self.configs@.skip(i + 1));
            if self.configs[i].config_type == wanted {
                return Some(&self.configs[i]);
            }
            i += 1;
        }
        None
    }
}

/// The position of the first configuration of a type; the number of configurations, if there is none.
pub open spec fn first_of_type(configs: Seq<ServiceConfig>, config_type: Seq<char>) -> int
    decreases configs.len(),
{
    if configs.len() == 0 || configs[0].config_type@ == config_type {
        0
    } else {
        1 + first_of_type(configs.skip(1), config_type)
    }
}

/// The service's `intercept.v1` configuration: none if the service has none, an error if it has one
/// that does not read as such.
pub fn intercept_v1_config(svc: &Service) -> (r: Result<Option<&InterceptV1Config>, EdgeError>)
    ensures
        svc.intercept_index() == svc.configs@.len() ==> (r matches Ok(None)),
        svc.intercept_index() != svc.configs@.len() ==> match (
            svc.configs@[svc.intercept_index()].intercept,
            r,
        ) {
            (Ok(cfg), Ok(Some(c))) => *c == cfg,
            (
                Err(why),
                Err(EdgeError::ServiceConfig { config_type, message }),
            ) => config_type@ == INTERCEPT_V1_CONFIG_TYPE@ && message@ == why@,
            _ => false,
        },
{
    match svc.find_intercept() {
        None => Ok(None),
        Some(c) => match &c.intercept {
            Ok(cfg) => Ok(Some(cfg)),
            Err(why) => Err(
                EdgeError::ServiceConfig {
                    config_type: INTERCEPT_V1_CONFIG_TYPE.to_owned(),
                    message: why.clone(),
                },
            ),
        },
    }
}

/// The seconds that a dial of the service may take: five unless the configuration says, and fifteen
/// where it says zero.
pub open spec fn timeout_of(cfg: ConfigState) -> u64 {
    match cfg.connect_timeout_seconds {
        Some(secs) => if secs == 0 {
            DEFAULT_CONNECT_TIMEOUT
        } else {
            secs as u64
        },
        None => INTERCEPT_DIAL_TIMEOUT,
    }
}

/// The seconds that a dial of the service may take.
pub fn dial_timeout_for(cfg: &InterceptV1Config) -> (r: u64)
    ensures
        r == timeout_of(cfg@),
{
    match &cfg.dial_options {
        Some(o) => match o.connect_timeout_seconds {
            Some(secs) => {
                if secs == 0 {
                    DEFAULT_CONNECT_TIMEOUT
                } else {
                    secs as u64
                }
            },
            None => INTERCEPT_DIAL_TIMEOUT,
        },
        None => INTERCEPT_DIAL_TIMEOUT,
    }
}

/// The networks that the texts of a list write, in its order; a text that writes none is passed over.
pub open spec fn literal_nets(s: Seq<Seq<char>>) -> Seq<IpNet>
    decreases s.len(),
{
    if s.len() == 0 {
        Seq::empty()
    } else {
        match crate::addr::net_text(s.last()) {
            Some(n) => literal_nets(s.drop_last()).push(n),
            None => literal_nets(s.drop_last()),
        }
    }
}

/// The texts of a list that do not begin with an asterisk.
pub open spec fn unstarred(s: Seq<Seq<char>>) -> Seq<Seq<char>>
    decreases s.len(),
{
    if s.len() == 0 {
        Seq::empty()
    } else if s.last().len() > 0 && s.last()[0] == '*' {
        unstarred(s.drop_last())
    } else {
        unstarred(s.drop_last()).push(s.last())
    }
}

/// The sources that a list of allowed addresses admits: any, if the list is empty; else those of the
/// networks that it writes. Host names and wildcards admit nobody.
pub open spec fn sources_of(allowed: Seq<Seq<char>>) -> Option<Seq<IpNet>> {
    if allowed.len() == 0 {
        None
    } else {
        Some(literal_nets(unstarred(allowed)))
    }
}

/// Whether a source is admitted.
pub open spec fn admits(sources: Option<Seq<IpNet>>, src: crate::addr::IpAddr) -> bool {
    match sources {
        None => true,
        Some(nets) => exists|i: int| 0 <= i < nets.len() && (#[trigger] nets[i]).covers(src),
    }
}

/// All the networks of a list are well formed.
pub open spec fn nets_wf(nets: Seq<IpNet>) -> bool {
    forall|i: int| 0 <= i < nets.len() ==> (#[trigger] nets[i]).wf()
}

/// A list of networks, if there is one.
pub open spec fn opt_nets(s: Option<Vec<IpNet>>) -> Option<Seq<IpNet>> {
    match s {
        Some(v) => Some(v@),
        None => None,
    }
}

/// The sources that a list of allowed addresses admits.
pub fn build_allowed_sources(entries: &Vec<String>) -> (r: Option<Vec<IpNet>>)
    ensures
        opt_nets(r) == sources_of(texts(entries@)),
        r matches Some(v) ==> nets_wf(v@),
{
    if entries.len() == 0 {
        return None;
    }
    let mut out: Vec<IpNet> = Vec::new();
    let mut i: usize = 0;
    while i < entries.len()
        invariant
            i <= entries@.len(),
            nets_wf(out@),
            out@ == literal_nets(unstarred(texts(entries@).take(i as int))),
        decreases entries@.len() - i,
    {
        let chars = chars_of(entries[i].as_str());
        proof {
            let now = texts(entries@).take(i + 1);
            assert(now.drop_last() =~= texts(entries@).take(i as int));
            assert(now.last() == entries@[i as int]@);
            let kept = unstarred(now.drop_last()).push(now.last());
            assert(kept.drop_last() =~= unstarred(now.drop_last()));
        }
        if !(chars.len() > 0 && chars[0] == '*') {
            if let Some(net) = parse_ip_or_cidr(entries[i].as_str()) {
                out.push(net);
            }
        }
        i += 1;
    }
    assert(texts(entries@).take(i as int) =~= texts(entries@));
    Some(out)
}

/// The networks that the configuration's addresses write, in its order and as often as it has them.
pub fn literal_addrs(cfg: &InterceptV1Config) -> (r: Vec<IpNet>)
    ensures
        r@ == literal_nets(cfg@.addresses),
        nets_wf(r@),
{
    let mut out: Vec<IpNet> = Vec::new();
    let mut i: usize = 0;
    while i < cfg.addresses.len()
        invariant
            i <= cfg.addresses@.len(),
            nets_wf(out@),
            out@ == literal_nets(cfg@.addresses.take(i as int)),
        decreases cfg.addresses@.len() - i,
    {
        proof {
            let now = cfg@.addresses.take(i + 1);
            assert(now.drop_last() =~= cfg@.addresses.take(i as int));
            assert(now.last() == cfg.addresses@[i as int]@);
        }
        if let Some(net) = parse_ip_or_cidr(cfg.addresses[i].as_str()) {
            out.push(net);
        }
        i += 1;
    }
    assert(cfg@.addresses.take(i as int) =~= cfg@.addresses);
    out
}

/// A list of allowed sources that is not empty never admits everybody: it admits a source only if the
/// source lies in a network that the list writes.
pub proof fn law_restriction_never_widens(allowed: Seq<Seq<char>>, src: crate::addr::IpAddr)
    requires
        allowed.len() > 0,
    ensures
        admits(sources_of(allowed), src) ==> exists|i: int|
            0 <= i < allowed.len() && (crate::addr::net_text(#[trigger] allowed[i]) matches Some(n)
                && n.covers(src)),
{
    if admits(sources_of(allowed), src) {
        let nets = literal_nets(unstarred(allowed));
        let k = choose|k: int| 0 <= k < nets.len() && (#[trigger] nets[k]).covers(src);
        lemma_literal_source(unstarred(allowed), k);
        let j = choose|j: int|
            0 <= j < unstarred(allowed).len() && crate::addr::net_text(#[trigger] unstarred(allowed)[j])
                == Some(nets[k]);
        lemma_unstarred_source(allowed, j);
        let i = choose|i: int| 0 <= i < allowed.len() && #[trigger] allowed[i] == unstarred(allowed)[j];
        assert(crate::addr::net_text(allowed[i]) == Some(nets[k]));
    }
}

proof fn lemma_literal_source(s: Seq<Seq<char>>, k: int)
    requires
        0 <= k < literal_nets(s).len(),
    ensures
        exists|j: int|
            0 <= j < s.len() && crate::addr::net_text(#[trigger] s[j]) == Some(literal_nets(s)[k]),
    decreases s.len(),
{
    let rest = s.drop_last();
    if k < literal_nets(rest).len() {
        lemma_literal_source(rest, k);
        let j = choose|j: int|
            0 <= j < rest.len() && crate::addr::net_text(#[trigger] rest[j]) == Some(
                literal_nets(rest)[k],
            );
        assert(s[j] == rest[j]);
    } else {
        assert(crate::addr::net_text(s[s.len() - 1]) == Some(literal_nets(s)[k]));
    }
}

proof fn lemma_unstarred_source(s: Seq<Seq<char>>, k: int)
    requires
        0 <= k < unstarred(s).len(),
    ensures
        exists|j: int| 0 <= j < s.len() && #[trigger] s[j] == unstarred(s)[k],
    decreases s.len(),
{
    let rest = s.drop_last();
    if k < unstarred(rest).len() {
        lemma_unstarred_source(rest, k);
        let j = choose|j: int| 0 <= j < rest.len() && #[trigger] rest[j] == unstarred(rest)[k];
        assert(s[j] == rest[j]);
    } else {
        assert(s[s.len() - 1] == unstarred(s)[k]);
    }
}

} // verus!
