//! The manager of intercepted UDP traffic.
//!
//! It takes what comes in, one thing at a time: a datagram, a response of an upstream server, a reply of
//! a hosting endpoint, the tick of its clock. For each it says what is to be done, and never waits: the
//! sending, the dialling and the pumping are done elsewhere.

use vstd::prelude::*;

use crate::addr::SocketAddr;
#[allow(unused_imports)]
use crate::dispatch::{to_dns_server, DialState};
use crate::dispatch::{dial_for, is_dns_server_datagram, Dial};
#[allow(unused_imports)]
use crate::dns_server::{
    answer, holds_question, lemma_query_holds_question, query_of, served, text_len, ActionSpec,
    ProxyQuerySpec, DNS_SERVFAIL,
};
use crate::dns_server::{handle_query, DnsAction, ProxyQuery};
use crate::flows::FlowRegistry;
#[allow(unused_imports)]
use crate::flows::{FlowsState, RegisteredFlow};
#[allow(unused_imports)]
use crate::proxy_conn::JobState;
#[allow(unused_imports)]
use crate::proxy_resolve::{opt_reply, PendingState, ProxyState};
use crate::proxy_resolve::{Forwarded, ProxyDns, ProxyEvent, ProxyJob, ProxyReply};
use crate::resolve::{InterceptResolver, Protocol};
#[allow(unused_imports)]
use crate::resolve::ResolverState;
use crate::udp_flows::{FlowKey, RouteAction, UdpFlows};
#[allow(unused_imports)]
use crate::udp_flows::UdpFlowsState;
use crate::upstream::UpstreamDns;
#[allow(unused_imports)]
use crate::upstream::{id_of, UpstreamState};

verus! {

/// How many times in a row the stack may give nothing before it is taken to be closed. A malformed
/// datagram gives nothing once.
pub const MAX_CONSECUTIVE_RECV_NONE: u32 = 1024;

/// What to do with what the stack gave.
#[derive(Debug, PartialEq, Eq)]
pub enum RecvStep {
    /// Route a datagram: its payload, its destination, its source.
    Route(Vec<u8>, SocketAddr, SocketAddr),
    /// Wait for the next one.
    Continue,
    /// Stop: the stack is taken to be closed.
    Stop,
}

/// Classifies what the stack gave, and counts how often in a row it gave nothing.
pub fn classify_recv(
    msg: Option<(Vec<u8>, SocketAddr, SocketAddr)>,
    consecutive_none: &mut u32,
) -> (r: RecvStep)
    requires
        *old(consecutive_none) < u32::MAX,
    ensures
        match msg {
            Some((payload, dst, src)) => {
                &&& r == RecvStep::Route(payload, dst, src)
                &&& *final(consecutive_none) == 0
            },
            None => {
                &&& *final(consecutive_none) == *old(consecutive_none) + 1
                &&& r == (if *old(consecutive_none) + 1 >= MAX_CONSECUTIVE_RECV_NONE {
                    RecvStep::Stop
                } else {
                    RecvStep::Continue
                })
            },
        },
{
    match msg {
        Some((payload, dst, src)) => {
            *consecutive_none = 0;
            RecvStep::Route(payload, dst, src)
        },
        None => {
            *consecutive_none = *consecutive_none + 1;
            if *consecutive_none >= MAX_CONSECUTIVE_RECV_NONE {
                RecvStep::Stop
            } else {
                RecvStep::Continue
            }
        },
    }
}

/// What came of putting an answer in the queue of what goes out.
#[derive(Clone, Copy, Debug, PartialEq, Eq, Structural)]
pub enum ReplyOutcome {
    Queued,
    /// The queue is full, and the answer was dropped.
    Full,
    /// The queue is closed: the stack is gone.
    Closed,
}

/// Whether the manager goes on after it gave an answer. A dropped answer is no reason to stop: the
/// client asks again.
pub fn send_dns_reply(outcome: ReplyOutcome) -> (r: bool)
    ensures
        r == !(outcome is Closed),
{
    match outcome {
        ReplyOutcome::Closed => false,
        _ => true,
    }
}

/// Why intercepting UDP traffic ends.
#[derive(Clone, Copy, Debug, PartialEq, Eq, Structural)]
pub enum UdpInterceptError {
    /// The stack was made without UDP.
    NotEnabled,
    /// The stack gave nothing too many times in a row.
    StackClosed,
}

impl UdpInterceptError {
    /// The error in words.
    pub fn message(self) -> (r: &'static str)
        ensures
            r@ == (match self {
                UdpInterceptError::NotEnabled =>
                "run_udp_intercept requires a UDP-enabled stack (InterceptStack::new_with_udp)"@,
                UdpInterceptError::StackClosed =>
                "intercept udp: recv_from agotó el límite de None consecutivos (pila presuntamente cerrada o ráfaga de datagramas malformados)"@,
            }),
    {
        match self {
            UdpInterceptError::NotEnabled =>
            "run_udp_intercept requires a UDP-enabled stack (InterceptStack::new_with_udp)",
            UdpInterceptError::StackClosed =>
            "intercept udp: recv_from agotó el límite de None consecutivos (pila presuntamente cerrada o ráfaga de datagramas malformados)",
        }
    }
}

/// Whether intercepting UDP traffic can begin: not on a stack that was made without UDP.
pub fn check_udp(enabled: bool) -> (r: Result<(), UdpInterceptError>)
    ensures
        r == (if enabled {
            Ok::<(), UdpInterceptError>(())
        } else {
            Err::<(), UdpInterceptError>(UdpInterceptError::NotEnabled)
        }),
{
    if enabled {
        Ok(())
    } else {
        Err(UdpInterceptError::NotEnabled)
    }
}

/// What is to be done.
#[derive(Debug, PartialEq, Eq)]
pub enum UdpAction {
    /// Nothing.
    Nothing,
    /// Stop, with an error: the stack is taken to be closed.
    Stop,
    /// Give the client an answer that comes from `dst`.
    Reply { bytes: Vec<u8>, dst: SocketAddr, src: SocketAddr },
    /// Send the query to every upstream server, and report which of them took it.
    SendUpstream {
        request: Vec<u8>,
        on_send_failure: Vec<u8>,
        dst: SocketAddr,
        src: SocketAddr,
    },
    /// Write a question to the connection of a domain.
    Ask { connect: ConnectProxy, job: ProxyJob },
    /// Give the client an answer, and have the connection of a domain made.
    ReplyAndConnect {
        bytes: Vec<u8>,
        dst: SocketAddr,
        src: SocketAddr,
        connect: ConnectProxy,
    },
    /// Dial for a new flow, whose number among the registered flows is `flow`, and pump it.
    Dial { flow: u64, key: FlowKey, dial: Dial },
}

/// The connection of a domain to the endpoint that hosts its service: its number, whether it is yet to be
/// dialled, the service, and the time allowed for the dial in seconds.
#[derive(Debug, PartialEq, Eq)]
pub struct ConnectProxy {
    pub conn: u64,
    pub dial: bool,
    pub service: String,
    pub timeout: u64,
    pub domain: String,
}

/// The connection of a domain.
pub struct ConnectState {
    pub conn: u64,
    pub dial: bool,
    pub service: Seq<char>,
    pub timeout: u64,
    pub domain: Seq<char>,
}

impl View for ConnectProxy {
    type V = ConnectState;

    open spec fn view(&self) -> ConnectState {
        ConnectState {
            conn: self.conn,
            dial: self.dial,
            service: self.service@,
            timeout: self.timeout,
            domain: self.domain@,
        }
    }
}

/// What is to be done.
pub enum UdpStep {
    Nothing,
    Stop,
    Reply { bytes: Seq<u8>, dst: SocketAddr, src: SocketAddr },
    SendUpstream {
        request: Seq<u8>,
        on_send_failure: Seq<u8>,
        dst: SocketAddr,
        src: SocketAddr,
    },
    Ask { connect: ConnectState, job: JobState },
    ReplyAndConnect {
        bytes: Seq<u8>,
        dst: SocketAddr,
        src: SocketAddr,
        connect: ConnectState,
    },
    Dial { flow: u64, key: FlowKey, dial: DialState },
}

impl View for UdpAction {
    type V = UdpStep;

    open spec fn view(&self) -> UdpStep {
        match self {
            UdpAction::Nothing => UdpStep::Nothing,
            UdpAction::Stop => UdpStep::Stop,
            UdpAction::Reply { bytes, dst, src } => UdpStep::Reply {
                bytes: bytes@,
                dst: *dst,
                src: *src,
            },
            UdpAction::SendUpstream { request, on_send_failure, dst, src } => UdpStep::SendUpstream {
                request: request@,
                on_send_failure: on_send_failure@,
                dst: *dst,
                src: *src,
            },
            UdpAction::Ask { connect, job } => UdpStep::Ask { connect: connect@, job: job@ },
            UdpAction::ReplyAndConnect { bytes, dst, src, connect } => UdpStep::ReplyAndConnect {
                bytes: bytes@,
                dst: *dst,
                src: *src,
                connect: connect@,
            },
            UdpAction::Dial { flow, key, dial } => UdpStep::Dial {
                flow: *flow,
                key: *key,
                dial: dial@,
            },
        }
    }
}

/// The state of the manager.
pub struct UdpState {
    pub flows: UdpFlowsState,
    pub upstream: Option<UpstreamState>,
    pub proxy: Option<ProxyState>,
    pub dns_server_ip: Option<u32>,
    pub consecutive_none: u32,
    pub idle_timeout: u64,
}

impl UdpState {
    /// What is done with something that came back from the connection of a domain, and the state after it.
    pub open spec fn proxied_back(self, ev: ProxyEvent) -> (UdpState, UdpStep) {
        match self.proxy {
            None => (self, UdpStep::Nothing),
            Some(p) => (
                UdpState { proxy: Some(p.after_event(ev)), ..self },
                match p.event_reply(ev, self.upstream is Some) {
                    Some(reply) => UdpStep::Reply {
                        bytes: reply.bytes,
                        dst: reply.server_addr,
                        src: reply.client_addr,
                    },
                    None => UdpStep::Nothing,
                },
            ),
        }
    }

    /// What is done with a question that a connection refused, and the state after it: it is asked again
    /// on a new connection, but only once.
    pub open spec fn refused(self, connect: ConnectState, job: JobState, again: bool) -> (
        UdpState,
        UdpStep,
    ) {
        if again {
            self.proxied_back(ProxyEvent::WriteFailed(job.id))
        } else {
            match self.proxy {
                None => (self, UdpStep::Nothing),
                Some(p) => (
                    UdpState {
                        proxy: Some(p.dialled(connect.service, connect.domain)),
                        ..self
                    },
                    UdpStep::Ask {
                        connect: ConnectState { conn: p.next_conn, dial: true, ..connect },
                        job,
                    },
                ),
            }
        }
    }

    /// What is done with a question for a hosting endpoint, and the state after it.
    pub open spec fn asked(
        self,
        r: ResolverState,
        q: ProxyQuerySpec,
        b: Seq<u8>,
        dst: SocketAddr,
        src: SocketAddr,
        now: u64,
    ) -> (UdpState, UdpStep) {
        let p = self.proxy->0;
        if p.pending.contains_key(q.id) {
            (self, UdpStep::Nothing)
        } else {
            match r.proxy_service(q.domain) {
                None => (
                    self,
                    UdpStep::Reply {
                        bytes: answer(b, q.name_strlen, DNS_SERVFAIL, None, 0, self.upstream is Some),
                        dst,
                        src,
                    },
                ),
                Some(rule) => {
                    let after = p.connected(rule.service, q.domain).waiting(
                        q.id,
                        PendingState {
                            packet: b,
                            name_strlen: q.name_strlen,
                            server_addr: dst,
                            client_addr: src,
                            at: now,
                        },
                    );
                    (
                        UdpState { proxy: Some(after), ..self },
                        UdpStep::Ask {
                            connect: ConnectState {
                                conn: after.conns[q.domain].conn,
                                dial: !p.reusable(rule.service, q.domain),
                                service: rule.service,
                                timeout: rule.dial_timeout,
                                domain: q.domain,
                            },
                            job: JobState { id: q.id, json: q.json },
                        },
                    )
                },
            }
        }
    }

    /// What is done with an answer that goes out while the connection of its domain is made, and the
    /// state after it.
    pub open spec fn answered_and_connected(
        self,
        r: ResolverState,
        bytes: Seq<u8>,
        domain: Seq<char>,
        dst: SocketAddr,
        src: SocketAddr,
    ) -> (UdpState, UdpStep) {
        let p = self.proxy->0;
        match r.proxy_service(domain) {
            None => (self, UdpStep::Reply { bytes, dst, src }),
            Some(rule) => {
                let after = p.connected(rule.service, domain);
                (
                    UdpState { proxy: Some(after), ..self },
                    UdpStep::ReplyAndConnect {
                        bytes,
                        dst,
                        src,
                        connect: ConnectState {
                            conn: after.conns[domain].conn,
                            dial: !p.reusable(rule.service, domain),
                            service: rule.service,
                            timeout: rule.dial_timeout,
                            domain,
                        },
                    },
                )
            },
        }
    }

    /// What is done with a datagram for the name server: the state of the manager and of the resolver
    /// after it, and the step.
    pub open spec fn dns_served(
        self,
        r: ResolverState,
        b: Seq<u8>,
        dst: SocketAddr,
        src: SocketAddr,
        now: u64,
    ) -> (UdpState, ResolverState, UdpStep) {
        let (dns, action) = served(r.dns, b, self.upstream is Some, self.proxy is Some);
        let after = ResolverState { dns, ..r };
        match action {
            ActionSpec::Respond(bytes) => (self, after, UdpStep::Reply { bytes, dst, src }),
            ActionSpec::Drop => (self, after, UdpStep::Nothing),
            ActionSpec::ForwardUpstream { on_send_failure } => (
                self,
                after,
                if self.upstream->0.pending.contains_key(id_of(b)) {
                    UdpStep::Nothing
                } else {
                    UdpStep::SendUpstream { request: b, on_send_failure, dst, src }
                },
            ),
            ActionSpec::ForwardProxy(q) => {
                let (s, step) = self.asked(after, q, b, dst, src, now);
                (s, after, step)
            },
            ActionSpec::RespondAndConnectProxy { response, domain } => {
                let (s, step) = self.answered_and_connected(after, response, domain, dst, src);
                (s, after, step)
            },
        }
    }

    /// What is done with a datagram for another destination: the state of the manager and of the
    /// registry of flows after it, and the step.
    pub open spec fn routed(
        self,
        r: ResolverState,
        flows: FlowsState,
        b: Seq<u8>,
        dst: SocketAddr,
        src: SocketAddr,
        now: u64,
    ) -> (UdpState, FlowsState, UdpStep) {
        let key = FlowKey { src, dst };
        if self.flows.live(key) {
            (
                UdpState { flows: self.flows.delivered(key, b), ..self },
                flows,
                UdpStep::Nothing,
            )
        } else {
            match r.dial(Protocol::Udp, dst, src) {
                None => (
                    UdpState { flows: self.flows.routed(key), ..self },
                    flows,
                    UdpStep::Nothing,
                ),
                Some(dial) => (
                    UdpState {
                        flows: self.flows.routed(key).created(key, flows.registered_total, b, now),
                        ..self
                    },
                    flows.registered(dial.service, Protocol::Udp, src, dst),
                    UdpStep::Dial { flow: flows.registered_total, key, dial },
                ),
            }
        }
    }
}

/// The manager of intercepted UDP traffic.
pub struct UdpManager {
    flows: UdpFlows,
    upstream: Option<UpstreamDns>,
    proxy: Option<ProxyDns>,
    dns_server_ip: Option<u32>,
    consecutive_none: u32,
    idle_timeout: u64,
}

impl View for UdpManager {
    type V = UdpState;

    closed spec fn view(&self) -> UdpState {
        UdpState {
            flows: self.flows@,
            upstream: match self.upstream {
                Some(u) => Some(u@),
                None => None,
            },
            proxy: match self.proxy {
                Some(p) => Some(p@),
                None => None,
            },
            dns_server_ip: self.dns_server_ip,
            consecutive_none: self.consecutive_none,
            idle_timeout: self.idle_timeout,
        }
    }
}

/// Whether a connection of a domain can still be given a number.
pub open spec fn can_connect(s: UdpState) -> bool {
    s.proxy matches Some(p) ==> p.next_conn < u64::MAX
}

impl UdpManager {
    /// What holds of every manager.
    pub closed spec fn wf(&self) -> bool {
        &&& self.flows.wf()
        &&& self.upstream matches Some(u) ==> u.wf()
        &&& self.proxy matches Some(p) ==> p.wf()
    }

    /// A manager without flows. A hosting endpoint can be asked just where there is a name server.
    pub fn new(
        dns_server_ip: Option<u32>,
        upstream: Option<UpstreamDns>,
        idle_timeout: u64,
    ) -> (r: Self)
        requires
            upstream matches Some(u) ==> u.wf(),
        ensures
            r.wf(),
            r@ == (UdpState {
                flows: UdpFlowsState { flows: Map::empty(), vconns: Map::empty() },
                upstream: match upstream {
                    Some(u) => Some(u@),
                    None => None,
                },
                proxy: match dns_server_ip {
                    Some(_) => Some(
                        ProxyState { conns: Map::empty(), pending: Map::empty(), next_conn: 0 },
                    ),
                    None => None,
                },
                dns_server_ip,
                consecutive_none: 0,
                idle_timeout,
            }),
    {
        let proxy: Option<ProxyDns> = match dns_server_ip {
            Some(_) => Some(ProxyDns::new()),
            None => None,
        };
        UdpManager {
            flows: UdpFlows::new(),
            upstream,
            proxy,
            dns_server_ip,
            consecutive_none: 0,
            idle_timeout,
        }
    }

    /// The flows and their connections, for the pumps.
    pub fn flows_mut(&mut self) -> (r: &mut UdpFlows)
        requires
            old(self).wf(),
        ensures
            r.wf(),
            r@ == old(self)@.flows,
            final(r).wf() ==> final(self).wf(),
            final(self)@ == (UdpState { flows: final(r)@, ..old(self)@ }),
    {
        &mut self.flows
    }

    /// Whether a connection of a domain can still be given a number.
    pub fn connects(&self) -> (r: bool)
        ensures
            r == can_connect(self@),
    {
        match &self.proxy {
            Some(p) => p.connects(),
            None => true,
        }
    }

    /// Forwards a question to the endpoint that hosts the domain's service.
    fn ask(
        &mut self,
        resolver: &InterceptResolver,
        q: ProxyQuery,
        payload: Vec<u8>,
        dst: SocketAddr,
        src: SocketAddr,
        now: u64,
    ) -> (r: UdpAction)
        requires
            old(self).wf(),
            old(self)@.proxy is Some,
            can_connect(old(self)@),
            resolver.wf(),
            holds_question(payload@, q.name_strlen as int),
        ensures
            final(self).wf(),
            final(self)@ == old(self)@.asked(resolver@, q@, payload@, dst, src, now).0,
            r@ == old(self)@.asked(resolver@, q@, payload@, dst, src, now).1,
    {
        let recursion_available: bool = self.upstream.is_some();
        let found = resolver.proxy_service(q.domain.as_str());
        let (service, timeout): (Option<&str>, u64) = match &found {
            Some(m) => (Some(m.service), m.dial_timeout),
            None => (None, 0),
        };
        let forwarded: Forwarded = match &mut self.proxy {
            Some(p) => p.handle_forward(service, q, payload, dst, src, recursion_available, now),
            None => {
                return UdpAction::Nothing;
            },
        };
        match forwarded {
            Forwarded::Duplicate => UdpAction::Nothing,
            Forwarded::Reply(bytes) => UdpAction::Reply { bytes, dst, src },
            Forwarded::Send { conn, dial, domain, job } => {
                let owner: String = match service {
                    Some(s) => s.to_owned(),
                    None => String::new(),
                };
                UdpAction::Ask {
                    connect: ConnectProxy { conn, dial, service: owner, timeout, domain },
                    job,
                }
            },
        }
    }

    /// Gives an answer, and has the connection of its domain made.
    fn reply_and_connect(
        &mut self,
        resolver: &InterceptResolver,
        bytes: Vec<u8>,
        domain: String,
        dst: SocketAddr,
        src: SocketAddr,
    ) -> (r: UdpAction)
        requires
            old(self).wf(),
            old(self)@.proxy is Some,
            can_connect(old(self)@),
            resolver.wf(),
        ensures
            final(self).wf(),
            final(self)@ == old(self)@.answered_and_connected(
                resolver@,
                bytes@,
                domain@,
                dst,
                src,
            ).0,
            r@ == old(self)@.answered_and_connected(resolver@, bytes@, domain@, dst, src).1,
    {
        match resolver.proxy_service(domain.as_str()) {
            None => UdpAction::Reply { bytes, dst, src },
            Some(m) => {
                let (conn, dial): (u64, bool) = match &mut self.proxy {
                    Some(p) => p.ensure_conn(m.service, domain.as_str()),
                    None => {
                        return UdpAction::Nothing;
                    },
                };
                UdpAction::ReplyAndConnect {
                    bytes,
                    dst,
                    src,
                    connect: ConnectProxy {
                        conn,
                        dial,
                        service: m.service.to_owned(),
                        timeout: m.dial_timeout,
                        domain,
                    },
                }
            },
        }
    }

    /// Serves a datagram for the name server.
    pub fn serve_dns_datagram(
        &mut self,
        resolver: &mut InterceptResolver,
        payload: Vec<u8>,
        dst: SocketAddr,
        src: SocketAddr,
        now: u64,
    ) -> (r: UdpAction)
        requires
            old(self).wf(),
            can_connect(old(self)@),
            old(resolver).wf(),
        ensures
            final(self).wf(),
            final(resolver).wf(),
            final(self)@ == old(self)@.dns_served(old(resolver)@, payload@, dst, src, now).0,
            final(resolver)@ == old(self)@.dns_served(old(resolver)@, payload@, dst, src, now).1,
            r@ == old(self)@.dns_served(old(resolver)@, payload@, dst, src, now).2,
    {
        let upstream: bool = self.upstream.is_some();
        let proxy: bool = self.proxy.is_some();
        let ghost known = resolver@;
        proof {
            if query_of(payload@) is Some {
                lemma_query_holds_question(payload@);
            }
        }
        let action = handle_query(resolver.dns_mut(), payload.as_slice(), upstream, proxy);
        match action {
            DnsAction::Respond(bytes) => UdpAction::Reply { bytes, dst, src },
            DnsAction::Drop => UdpAction::Nothing,
            DnsAction::ForwardUpstream { on_send_failure } => {
                let send: bool = match &self.upstream {
                    Some(u) => u.is_new(payload.as_slice()),
                    None => true,
                };
                if send {
                    UdpAction::SendUpstream { request: payload, on_send_failure, dst, src }
                } else {
                    UdpAction::Nothing
                }
            },
            DnsAction::ForwardProxy(q) => self.ask(resolver, q, payload, dst, src, now),
            DnsAction::RespondAndConnectProxy { response, domain } => self.reply_and_connect(
                resolver,
                response,
                domain,
                dst,
                src,
            ),
        }
    }

    /// Routes a datagram: to the connection of its flow, or to a new one, which is then to be dialled. A
    /// datagram to a destination that no service intercepts is dropped. A new flow is registered under
    /// its service before its dial, so that it can be killed while the dial is under way.
    pub fn route_datagram(
        &mut self,
        resolver: &InterceptResolver,
        flows: &mut FlowRegistry,
        payload: Vec<u8>,
        dst: SocketAddr,
        src: SocketAddr,
        now: u64,
    ) -> (r: UdpAction)
        requires
            old(self).wf(),
            resolver.wf(),
            old(flows).wf(),
            old(flows)@.registered_total < u64::MAX,
            old(self)@.flows.below(old(flows)@.registered_total),
        ensures
            final(self).wf(),
            final(flows).wf(),
            final(self)@ == old(self)@.routed(
                resolver@,
                old(flows)@,
                payload@,
                dst,
                src,
                now,
            ).0,
            final(flows)@ == old(self)@.routed(resolver@, old(flows)@, payload@, dst, src, now).1,
            r@ == old(self)@.routed(resolver@, old(flows)@, payload@, dst, src, now).2,
            final(self)@.flows.below(final(flows)@.registered_total),
    {
        let key = FlowKey { src, dst };
        let ghost before = self@.flows;
        proof {
            self.flows.lemma_wf();
        }
        match self.flows.route_decision(key) {
            RouteAction::Deliver => {
                self.flows.deliver(key, payload);
                UdpAction::Nothing
            },
            RouteAction::CreateNew => {
                assert(!before.routed(key).flows.contains_key(key));
                match dial_for(resolver, Protocol::Udp, dst, src) {
                    None => UdpAction::Nothing,
                    Some(dial) => {
                        let flow: u64 = flows.register(
                            dial.service.as_str(),
                            Protocol::Udp,
                            src,
                            dst,
                        );
                        self.flows.create_vconn(key, flow, payload, now);
                        UdpAction::Dial { flow, key, dial }
                    },
                }
            },
        }
    }

    /// Takes what the stack gave: a datagram, or nothing.
    pub fn on_recv(
        &mut self,
        resolver: &mut InterceptResolver,
        flows: &mut FlowRegistry,
        msg: Option<(Vec<u8>, SocketAddr, SocketAddr)>,
        now: u64,
    ) -> (r: UdpAction)
        requires
            old(self).wf(),
            can_connect(old(self)@),
            old(self)@.consecutive_none < MAX_CONSECUTIVE_RECV_NONE,
            old(resolver).wf(),
            old(flows).wf(),
            old(flows)@.registered_total < u64::MAX,
            old(self)@.flows.below(old(flows)@.registered_total),
        ensures
            final(self).wf(),
            final(resolver).wf(),
            final(flows).wf(),
            final(self)@.flows.below(final(flows)@.registered_total),
            match msg {
                None => {
                    &&& final(self)@ == (UdpState {
                        consecutive_none: (old(self)@.consecutive_none + 1) as u32,
                        ..old(self)@
                    })
                    &&& final(resolver)@ == old(resolver)@
                    &&& final(flows)@ == old(flows)@
                    &&& r@ == (if old(self)@.consecutive_none + 1 == MAX_CONSECUTIVE_RECV_NONE {
                        UdpStep::Stop
                    } else {
                        UdpStep::Nothing
                    })
                },
                Some((payload, dst, src)) => {
                    let s = UdpState { consecutive_none: 0, ..old(self)@ };
                    if to_dns_server(dst, s.dns_server_ip) {
                        let (after, known, step) = s.dns_served(
                            old(resolver)@,
                            payload@,
                            dst,
                            src,
                            now,
                        );
                        &&& final(self)@ == after
                        &&& final(resolver)@ == known
                        &&& final(flows)@ == old(flows)@
                        &&& r@ == step
                    } else {
                        let (after, registered, step) = s.routed(
                            old(resolver)@,
                            old(flows)@,
                            payload@,
                            dst,
                            src,
                            now,
                        );
                        &&& final(self)@ == after
                        &&& final(resolver)@ == old(resolver)@
                        &&& final(flows)@ == registered
                        &&& r@ == step
                    }
                },
            },
    {
        let mut count: u32 = self.consecutive_none;
        let step = classify_recv(msg, &mut count);
        self.consecutive_none = count;
        match step {
            RecvStep::Stop => UdpAction::Stop,
            RecvStep::Continue => UdpAction::Nothing,
            RecvStep::Route(payload, dst, src) => {
                if is_dns_server_datagram(dst, self.dns_server_ip) {
                    self.serve_dns_datagram(resolver, payload, dst, src, now)
                } else {
                    self.route_datagram(resolver, flows, payload, dst, src, now)
                }
            },
        }
    }

    /// Records that a query was sent to the upstream servers, `accepted` saying of each whether it took
    /// it. Where none did, the client gets the answer that is meant for that.
    pub fn on_upstream_sent(
        &mut self,
        request: &[u8],
        accepted: &Vec<bool>,
        on_send_failure: Vec<u8>,
        dst: SocketAddr,
        src: SocketAddr,
        now: u64,
    ) -> (r: UdpAction)
        requires
            old(self).wf(),
            request@.len() >= 2,
        ensures
            final(self).wf(),
            match old(self)@.upstream {
                Some(u) => {
                    let after = u.forwarded(request@, accepted@, dst, src, now);
                    &&& final(self)@ == (UdpState { upstream: Some(after), ..old(self)@ })
                    &&& r@ == (if after.pending.contains_key(id_of(request@)) {
                        UdpStep::Nothing
                    } else {
                        UdpStep::Reply { bytes: on_send_failure@, dst, src }
                    })
                },
                None => {
                    &&& final(self)@ == old(self)@
                    &&& r@ == (UdpStep::Reply { bytes: on_send_failure@, dst, src })
                },
            },
    {
        let waits: bool = match &mut self.upstream {
            Some(u) => u.forward(request, accepted, dst, src, now),
            None => false,
        };
        if waits {
            UdpAction::Nothing
        } else {
            UdpAction::Reply { bytes: on_send_failure, dst, src }
        }
    }

    /// Takes a response of an upstream server, which goes to the client that waits for it, as it came.
    pub fn on_upstream(&mut self, response: Vec<u8>) -> (r: UdpAction)
        requires
            old(self).wf(),
        ensures
            final(self).wf(),
            match old(self)@.upstream {
                Some(u) => {
                    &&& final(self)@ == (UdpState {
                        upstream: Some(u.responded(response@)),
                        ..old(self)@
                    })
                    &&& r@ == (match u.target(response@) {
                        Some((dst, src)) => UdpStep::Reply { bytes: response@, dst, src },
                        None => UdpStep::Nothing,
                    })
                },
                None => final(self)@ == old(self)@ && r@ == UdpStep::Nothing,
            },
    {
        let target: Option<(SocketAddr, SocketAddr)> = match &mut self.upstream {
            Some(u) => u.match_response(response.as_slice()),
            None => None,
        };
        match target {
            Some((dst, src)) => UdpAction::Reply { bytes: response, dst, src },
            None => UdpAction::Nothing,
        }
    }

    /// Takes what came back from the connection of a domain.
    pub fn on_proxy(&mut self, ev: ProxyEvent) -> (r: UdpAction)
        requires
            old(self).wf(),
        ensures
            final(self).wf(),
            final(self)@ == old(self)@.proxied_back(ev).0,
            r@ == old(self)@.proxied_back(ev).1,
    {
        let recursion_available: bool = self.upstream.is_some();
        let reply: Option<ProxyReply> = match &mut self.proxy {
            Some(p) => p.on_event(ev, recursion_available),
            None => None,
        };
        assert(old(self)@.proxy matches Some(p) ==> opt_reply(reply) == p.event_reply(
            ev,
            recursion_available,
        ));
        match reply {
            Some(reply) => UdpAction::Reply {
                bytes: reply.bytes,
                dst: reply.server_addr,
                src: reply.client_addr,
            },
            None => UdpAction::Nothing,
        }
    }

    /// Replaces the connection of a domain that no longer takes questions.
    pub fn replace_conn(&mut self, service: &str, domain: &str) -> (r: Option<u64>)
        requires
            old(self).wf(),
            can_connect(old(self)@),
        ensures
            final(self).wf(),
            match old(self)@.proxy {
                Some(p) => r == Some(p.next_conn) && final(self)@ == (UdpState {
                    proxy: Some(p.dialled(service@, domain@)),
                    ..old(self)@
                }),
                None => r is None && final(self)@ == old(self)@,
            },
    {
        match &mut self.proxy {
            Some(p) => Some(p.replace_handle(service, domain)),
            None => None,
        }
    }

    /// Takes a question that the connection it was meant for refused, because it has ended. The first time
    /// the connection is replaced, and the question is asked again on the new one; the second time,
    /// `again`, it is taken as one that could not be written.
    pub fn on_refused(&mut self, connect: ConnectProxy, job: ProxyJob, again: bool) -> (r: UdpAction)
        requires
            old(self).wf(),
            !again ==> can_connect(old(self)@),
        ensures
            final(self).wf(),
            final(self)@ == old(self)@.refused(connect@, job@, again).0,
            r@ == old(self)@.refused(connect@, job@, again).1,
    {
        if again {
            return self.on_proxy(ProxyEvent::WriteFailed(job.id));
        }
        match self.replace_conn(connect.service.as_str(), connect.domain.as_str()) {
            Some(conn) => UdpAction::Ask {
                connect: ConnectProxy { conn, dial: true, ..connect },
                job,
            },
            None => UdpAction::Nothing,
        }
    }

    /// Records that a connection of a domain has closed.
    pub fn conn_closed(&mut self, domain: &str, conn: u64)
        requires
            old(self).wf(),
        ensures
            final(self).wf(),
            final(self)@ == (match old(self)@.proxy {
                Some(p) => UdpState { proxy: Some(p.closed(domain@, conn)), ..old(self)@ },
                None => old(self)@,
            }),
    {
        match &mut self.proxy {
            Some(p) => p.conn_closed(domain, conn),
            None => {},
        }
    }

    /// The tick of the clock: gives up closed and idle connections, and everything that has waited too
    /// long.
    pub fn on_tick(&mut self, now: u64)
        requires
            old(self).wf(),
        ensures
            final(self).wf(),
            final(self)@ == (UdpState {
                flows: old(self)@.flows.swept(old(self)@.idle_timeout, now).tidied(),
                upstream: match old(self)@.upstream {
                    Some(u) => Some(u.swept(now)),
                    None => None,
                },
                proxy: match old(self)@.proxy {
                    Some(p) => Some(p.swept(now)),
                    None => None,
                },
                ..old(self)@
            }),
    {
        self.flows.drop_expired(self.idle_timeout, now);
        self.flows.tidy();
        match &mut self.upstream {
            Some(u) => u.evict_expired(now),
            None => {},
        }
        match &mut self.proxy {
            Some(p) => p.evict_expired(now),
            None => {},
        }
    }
}

/// A question that an ended connection refused is asked again, as it was, on a connection of its own
/// domain and service that no other has the number of; it still waits. If that one refuses it too, it is
/// answered as one that could not be written, and waits no more.
pub proof fn law_refused_question_is_asked_once_more(s: UdpState, connect: ConnectState, job: JobState)
    requires
        s.proxy matches Some(p) && p.wf() && p.next_conn < u64::MAX && p.pending.contains_key(job.id),
    ensures
        ({
            let p = s.proxy->0;
            let (once, ask) = s.refused(connect, job, false);
            let (twice, reply) = once.refused(connect, job, true);
            &&& ask == (UdpStep::Ask {
                connect: ConnectState { conn: p.next_conn, dial: true, ..connect },
                job,
            })
            &&& forall|d: Seq<char>| #[trigger]
                p.conns.contains_key(d) ==> p.conns[d].conn != p.next_conn
            &&& once.proxy->0.reusable(connect.service, connect.domain)
            &&& once.proxy->0.conns[connect.domain].conn == p.next_conn
            &&& once.proxy->0.pending == p.pending
            &&& reply == (UdpStep::Reply {
                bytes: answer(
                    p.pending[job.id].packet,
                    p.pending[job.id].name_strlen,
                    DNS_SERVFAIL,
                    None,
                    0,
                    s.upstream is Some,
                ),
                dst: p.pending[job.id].server_addr,
                src: p.pending[job.id].client_addr,
            })
            &&& !twice.proxy->0.pending.contains_key(job.id)
        }),
{
}

/// Once no service intercepts a destination any more, a datagram to it does not revive a flow that was
/// closed: it is dropped, and nothing is dialled or registered.
pub proof fn law_withdrawn_flow_is_not_revived(
    s: UdpState,
    r: ResolverState,
    flows: FlowsState,
    b: Seq<u8>,
    dst: SocketAddr,
    src: SocketAddr,
    now: u64,
)
    requires
        s.flows.wf(),
        !s.flows.live(FlowKey { src, dst }),
        r.dial(Protocol::Udp, dst, src) is None,
    ensures
        s.routed(r, flows, b, dst, src, now).2 is Nothing,
        s.routed(r, flows, b, dst, src, now).1 == flows,
        !s.routed(r, flows, b, dst, src, now).0.flows.flows.contains_key(FlowKey { src, dst }),
{
}

/// A datagram for the name server never becomes a flow, and what it is answered with at once goes to the
/// client that sent it, from the address that it was sent to.
pub proof fn law_name_server_answers_its_client(
    s: UdpState,
    r: ResolverState,
    b: Seq<u8>,
    dst: SocketAddr,
    src: SocketAddr,
    now: u64,
)
    ensures
        ({
            let (after, _, step) = s.dns_served(r, b, dst, src, now);
            &&& after.flows == s.flows
            &&& !(step is Dial)
            &&& step matches UdpStep::Reply { dst: d, src: c, .. } ==> d == dst && c == src
            &&& step matches UdpStep::ReplyAndConnect { dst: d, src: c, .. } ==> d == dst && c == src
        }),
{
}

/// What an endpoint is asked for a client is answered to that client, from the address that it asked.
pub proof fn law_endpoint_reply_reaches_its_client(
    s: UdpState,
    r: ResolverState,
    q: ProxyQuerySpec,
    b: Seq<u8>,
    dst: SocketAddr,
    src: SocketAddr,
    now: u64,
)
    requires
        s.proxy is Some,
        s.asked(r, q, b, dst, src, now).1 is Ask,
    ensures
        ({
            let p = s.asked(r, q, b, dst, src, now).0.proxy->0;
            let ev = ProxyEvent::WriteFailed(q.id);
            &&& p.event_reply(ev, s.upstream is Some) matches Some(reply)
            &&& reply.server_addr == dst
            &&& reply.client_addr == src
            &&& reply.bytes == answer(b, q.name_strlen, DNS_SERVFAIL, None, 0, s.upstream is Some)
        }),
{
}

/// The first datagram of a flow waits on the flow's connection while the service is dialled, and the flow
/// can be killed by its service from then on.
pub proof fn law_new_flow_is_registered_before_its_dial(
    s: UdpState,
    r: ResolverState,
    flows: FlowsState,
    b: Seq<u8>,
    dst: SocketAddr,
    src: SocketAddr,
    now: u64,
)
    requires
        s.routed(r, flows, b, dst, src, now).2 is Dial,
    ensures
        ({
            let (after, registered, step) = s.routed(r, flows, b, dst, src, now);
            let id = step->flow;
            let service = step->dial.service;
            &&& after.flows.vconns[id].queue == seq![b]
            &&& registered.of(service).last() == (RegisteredFlow {
                id,
                proto: Protocol::Udp,
                src,
                dst,
                live: true,
            })
        }),
{
}

} // verus!
