//! What is done with an intercepted flow: to which service it is dialled, and with what.

use vstd::prelude::*;

use crate::addr::{IpAddr, SocketAddr};
use crate::flows::FlowRegistry;
#[allow(unused_imports)]
use crate::json::{app_data, opt_str};
use crate::json::{intercept_tcp_appdata, intercept_udp_appdata};
use crate::resolve::{InterceptResolver, Protocol};
#[allow(unused_imports)]
use crate::resolve::{Flow, ResolverState};

verus! {

/// The port of the embedded name server.
pub const DNS_SERVER_PORT: u16 = 53;

/// A dial to make: the service, the time allowed for it in seconds, and the application data that tells
/// the hosting endpoint where the flow was bound.
#[derive(Debug, PartialEq, Eq)]
pub struct Dial {
    pub service: String,
    pub timeout: u64,
    pub appdata: Vec<u8>,
}

/// A dial to make.
pub struct DialState {
    pub service: Seq<char>,
    pub timeout: u64,
    pub appdata: Seq<u8>,
}

impl View for Dial {
    type V = DialState;

    open spec fn view(&self) -> DialState {
        DialState { service: self.service@, timeout: self.timeout, appdata: self.appdata@ }
    }
}

impl ResolverState {
    /// The host name of a destination: the one that its synthetic address stands for, if it is one.
    pub open spec fn hostname(self, dst: IpAddr) -> Option<Seq<char>> {
        match dst {
            IpAddr::V4(ip) => self.dns.reverse(ip),
            IpAddr::V6(_) => None,
        }
    }

    /// The dial of a flow; none if no service intercepts its destination.
    pub open spec fn dial(self, proto: Protocol, dst: SocketAddr, src: SocketAddr) -> Option<DialState> {
        match self.lookup(Flow { dst_ip: dst.ip, dst_port: dst.port, proto, src_ip: src.ip }) {
            None => None,
            Some(rule) => Some(
                DialState {
                    service: rule.service,
                    timeout: rule.dial_timeout,
                    appdata: app_data(proto.text(), dst, self.hostname(dst.ip)),
                },
            ),
        }
    }
}

/// The dial of a flow; none if no service intercepts its destination.
pub fn dial_for(
    resolver: &InterceptResolver,
    proto: Protocol,
    dst: SocketAddr,
    src: SocketAddr,
) -> (r: Option<Dial>)
    requires
        resolver.wf(),
    ensures
        match resolver@.dial(proto, dst, src) {
            None => r is None,
            Some(d) => r matches Some(dial) && dial@ == d,
        },
{
    match resolver.lookup(dst.ip, dst.port, proto, src.ip) {
        None => None,
        Some(m) => {
            let hostname: Option<&str> = match dst.ip {
                IpAddr::V4(ip) => resolver.dns().reverse_lookup(ip),
                IpAddr::V6(_) => None,
            };
            assert(opt_str(hostname) == resolver@.hostname(dst.ip));
            let appdata: Vec<u8> = match proto {
                Protocol::Tcp => intercept_tcp_appdata(dst, hostname),
                Protocol::Udp => intercept_udp_appdata(dst, hostname),
            };
            Some(Dial { service: m.service.to_owned(), timeout: m.dial_timeout, appdata })
        },
    }
}

/// Whether a destination is the embedded name server: its address, and its port.
pub open spec fn to_dns_server(dst: SocketAddr, dns_server_ip: Option<u32>) -> bool {
    dns_server_ip matches Some(ip) && dst.ip == IpAddr::V4(ip) && dst.port == DNS_SERVER_PORT
}

/// Whether a datagram goes to the embedded name server. It never does where there is none.
pub fn is_dns_server_datagram(dst: SocketAddr, dns_server_ip: Option<u32>) -> (r: bool)
    ensures
        r == to_dns_server(dst, dns_server_ip),
{
    match dns_server_ip {
        Some(ip) => dst.ip == IpAddr::V4(ip) && dst.port == DNS_SERVER_PORT,
        None => false,
    }
}

/// Whether a TCP flow goes to the embedded name server. It never does where there is none.
pub fn is_dns_tcp(dst: SocketAddr, dns_server_ip: Option<u32>) -> (r: bool)
    ensures
        r == to_dns_server(dst, dns_server_ip),
{
    is_dns_server_datagram(dst, dns_server_ip)
}

/// What is done with a TCP flow that was accepted.
#[derive(Debug, PartialEq, Eq)]
pub enum TcpAction {
    /// The embedded name server serves it.
    ServeDns,
    /// It is closed: no service intercepts its destination.
    Close,
    /// It is dialled, and then spliced. `flow` is its number among the registered flows.
    Dial { flow: u64, dial: Dial },
}

/// Decides what is done with a TCP flow that was accepted. One that is dialled is registered under its
/// service first, so that it can be killed while the dial is under way.
pub fn accept_tcp(
    resolver: &InterceptResolver,
    flows: &mut FlowRegistry,
    dns_server_ip: Option<u32>,
    dst: SocketAddr,
    src: SocketAddr,
) -> (r: TcpAction)
    requires
        resolver.wf(),
        old(flows).wf(),
        old(flows)@.registered_total < u64::MAX,
    ensures
        final(flows).wf(),
        if to_dns_server(dst, dns_server_ip) {
            r is ServeDns && final(flows)@ == old(flows)@
        } else {
            match resolver@.dial(Protocol::Tcp, dst, src) {
                None => r is Close && final(flows)@ == old(flows)@,
                Some(d) => {
                    &&& r matches TcpAction::Dial { flow, dial }
                    &&& dial@ == d
                    &&& flow == old(flows)@.registered_total
                    &&& final(flows)@ == old(flows)@.registered(d.service, Protocol::Tcp, src, dst)
                },
            }
        },
{
    if is_dns_tcp(dst, dns_server_ip) {
        return TcpAction::ServeDns;
    }
    match dial_for(resolver, Protocol::Tcp, dst, src) {
        None => TcpAction::Close,
        Some(dial) => {
            let flow: u64 = flows.register(dial.service.as_str(), Protocol::Tcp, src, dst);
            TcpAction::Dial { flow, dial }
        },
    }
}

/// A flow to a destination that no name stands for tells the hosting endpoint no host name, and one to a
/// synthetic address tells the name that it was handed out for.
pub proof fn law_dial_names_the_host(
    s: ResolverState,
    proto: Protocol,
    dst: SocketAddr,
    src: SocketAddr,
)
    requires
        s.dial(proto, dst, src) is Some,
    ensures
        s.dial(proto, dst, src)->0.appdata == app_data(proto.text(), dst, s.hostname(dst.ip)),
        dst.ip is V6 ==> s.hostname(dst.ip) is None,
        dst.ip matches IpAddr::V4(ip) && !(exists|n: Seq<char>| #[trigger]
            s.dns.hosts.contains_key(n) && s.dns.hosts[n].ip == ip) ==> s.hostname(dst.ip) is None,
        s.hostname(dst.ip) matches Some(n) ==> s.dns.hosts.contains_key(n) && dst.ip == IpAddr::V4(
            s.dns.hosts[n].ip,
        ),
{
}

} // verus!
