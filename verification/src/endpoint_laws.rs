//! What holds of the questions that hosting endpoints answer, and of what the manager of UDP traffic does
//! with each thing that comes in.

use vstd::prelude::*;

use crate::addr::SocketAddr;
use crate::dns_server::{answer, served, ActionSpec, AnswerSpec, ProxyQuerySpec};
use crate::flows::FlowsState;
use crate::proxy_conn::{failures, ConnPhase, JobState, ProxyConnState};
use crate::proxy_resolve::{
    acceptable, all_passed_on, data_needed, opt_reply, passed_on, records_of, usable, PendingState,
    ProxyConnHandle, ProxyEvent, ProxyJob, ProxyPending, ProxyReply, ProxyState, WireAnswer, WireMsg,
};
use crate::resolve::{Protocol, ResolverState};
use crate::udp::{can_connect, ConnectProxy, ConnectState, UdpAction, UdpState, UdpStep};
use crate::udp_flows::FlowKey;

verus! {

// What a reply gives.

/// A record can be passed on just if it has its data or is neither a mail exchanger, nor a text, nor a
/// service location. It is passed on with the type, the time to live and the numbers that it has.
pub proof fn law_record_is_passed_on(a: WireAnswer, list: Seq<WireAnswer>, i: int)
    ensures
        data_needed(a.atype) <==> a.atype == 15 || a.atype == 16 || a.atype == 33,
        usable(a) <==> a.data is Some || (a.atype != 15 && a.atype != 16 && a.atype != 33),
        passed_on(a).atype == a.atype,
        passed_on(a).ttl == a.ttl,
        passed_on(a).priority == a.priority,
        passed_on(a).weight == a.weight,
        passed_on(a).port == a.port,
        a.data matches Some(d) ==> passed_on(a).data == d@,
        a.data is None ==> passed_on(a).data.len() == 0,
        all_passed_on(list).len() == list.len(),
        0 <= i < list.len() ==> all_passed_on(list)[i] == passed_on(list[i]),
{
}

/// A reply counts just if each of its records can be passed on; its records are those that it lists, in
/// order, and none is not the same as an empty list.
pub proof fn law_records_of_a_reply(msg: WireMsg)
    ensures
        msg.answer is None ==> acceptable(msg) && records_of(msg) is None,
        msg.answer matches Some(list) ==> (acceptable(msg) <==> forall|i: int|
            0 <= i < list@.len() ==> (#[trigger] list@[i]).data is Some || (list@[i].atype != 15
                && list@[i].atype != 16 && list@[i].atype != 33)) && records_of(msg) == Some(
            all_passed_on(list@),
        ),
{
    if let Some(list) = msg.answer {
        if forall|i: int|
            0 <= i < list@.len() ==> (#[trigger] list@[i]).data is Some || (list@[i].atype != 15
                && list@[i].atype != 16 && list@[i].atype != 33) {
            assert forall|i: int| 0 <= i < list@.len() implies usable(#[trigger] list@[i]) by {}
        }
        if acceptable(msg) {
            assert forall|i: int| 0 <= i < list@.len() implies (#[trigger] list@[i]).data is Some || (
            list@[i].atype != 15 && list@[i].atype != 16 && list@[i].atype != 33) by {
                assert(usable(list@[i]));
            }
        }
    }
}

// The connections of the domains.

/// The connection of a domain is used again as long as it is open and goes to the same service. Otherwise
/// a new one is made, with the next number, open and to the service; the connections of the other domains
/// and the questions that wait stay as they are.
pub proof fn law_connection_of_a_domain(
    s: ProxyState,
    service: Seq<char>,
    domain: Seq<char>,
    other: Seq<char>,
)
    requires
        s.next_conn < u64::MAX,
    ensures
        s.reusable(service, domain) <==> s.conns.contains_key(domain) && !s.conns[domain].closed
            && s.conns[domain].service == service,
        s.reusable(service, domain) ==> s.connected(service, domain) == s,
        !s.reusable(service, domain) ==> s.connected(service, domain) == s.dialled(service, domain),
        ({
            let after = s.dialled(service, domain);
            &&& after.conns.contains_key(domain)
            &&& after.conns[domain].conn == s.next_conn
            &&& after.conns[domain].service == service
            &&& !after.conns[domain].closed
            &&& after.next_conn == s.next_conn + 1
            &&& after.pending == s.pending
            &&& other != domain ==> (after.conns.contains_key(other) <==> s.conns.contains_key(other))
            &&& other != domain && s.conns.contains_key(other) ==> after.conns[other] == s.conns[other]
        }),
{
}

/// The end of a connection closes it for its domain, and only if the domain still has that connection.
pub proof fn law_end_of_a_connection(s: ProxyState, domain: Seq<char>, conn: u64, other: Seq<char>)
    ensures
        !(s.conns.contains_key(domain) && s.conns[domain].conn == conn) ==> s.closed(domain, conn) == s,
        s.conns.contains_key(domain) && s.conns[domain].conn == conn ==> {
            let after = s.closed(domain, conn);
            &&& after.conns.contains_key(domain)
            &&& after.conns[domain].closed
            &&& after.conns[domain].conn == conn
            &&& after.conns[domain].service == s.conns[domain].service
            &&& other != domain ==> (after.conns.contains_key(other) <==> s.conns.contains_key(other))
            &&& other != domain && s.conns.contains_key(other) ==> after.conns[other] == s.conns[other]
            &&& after.pending == s.pending
            &&& after.next_conn == s.next_conn
        },
{
}

// The questions that wait.

/// A question waits under its number, and once answered no longer does; the others wait as they did.
pub proof fn law_waiting_questions(s: ProxyState, id: u16, p: PendingState, other: u16)
    ensures
        s.waiting(id, p).pending.contains_key(id),
        s.waiting(id, p).pending[id] == p,
        !s.answered(id).pending.contains_key(id),
        other != id ==> (s.waiting(id, p).pending.contains_key(other) <==> s.pending.contains_key(other)),
        other != id ==> (s.answered(id).pending.contains_key(other) <==> s.pending.contains_key(other)),
        other != id && s.pending.contains_key(other) ==> s.waiting(id, p).pending[other]
            == s.pending[other] && s.answered(id).pending[other] == s.pending[other],
        s.waiting(id, p).conns == s.conns && s.answered(id).conns == s.conns,
        s.waiting(id, p).next_conn == s.next_conn && s.answered(id).next_conn == s.next_conn,
{
}

/// A question that waits is answered to its client, from the address that it asked, on the query that it
/// came from; one that does not wait is answered to nobody.
pub proof fn law_answer_goes_to_who_asked(
    s: ProxyState,
    id: u16,
    status: u8,
    answers: Option<Seq<AnswerSpec>>,
    recursion: bool,
)
    ensures
        s.completion(id, status, answers, recursion) is Some <==> s.pending.contains_key(id),
        s.completion(id, status, answers, recursion) matches Some(reply) ==> {
            let p = s.pending[id];
            &&& reply.client_addr == p.client_addr
            &&& reply.server_addr == p.server_addr
            &&& reply.bytes == answer(p.packet, p.name_strlen, status, answers, 0, recursion)
        },
{
}

/// What comes back from a connection. A question that could not be written is answered with status 2 and
/// waits no longer. One that a reply carries the number of is answered with status 0 and the reply's
/// records, and waits no longer, if every record of the reply can be passed on. Anything else changes
/// nothing and is no answer.
pub proof fn law_what_comes_back(s: ProxyState, msg: WireMsg, id: u16, recursion: bool)
    ensures
        s.event_reply(ProxyEvent::WriteFailed(id), recursion) == s.completion(id, 2, None, recursion),
        s.after_event(ProxyEvent::WriteFailed(id)) == s.answered(id),
        s.event_reply(ProxyEvent::Data(None), recursion) is None,
        s.after_event(ProxyEvent::Data(None)) == s,
        !acceptable(msg) ==> s.event_reply(ProxyEvent::Data(Some(msg)), recursion) is None
            && s.after_event(ProxyEvent::Data(Some(msg))) == s,
        acceptable(msg) ==> s.event_reply(ProxyEvent::Data(Some(msg)), recursion) == s.completion(
            msg.id as u16,
            0,
            records_of(msg),
            recursion,
        ) && s.after_event(ProxyEvent::Data(Some(msg))) == s.answered(msg.id as u16),
        acceptable(msg) && msg.id == id ==> s.event_reply(ProxyEvent::Data(Some(msg)), recursion)
            == s.completion(id, 0, records_of(msg), recursion) && s.after_event(
            ProxyEvent::Data(Some(msg)),
        ) == s.answered(id),
{
}

/// A question waits five seconds. When the state is tidied, those whose time has run out are forgotten, and
/// so are the connections that have closed; the others stay as they are.
pub proof fn law_tidied_questions(s: ProxyState, now: u64, id: u16, domain: Seq<char>)
    ensures
        s.swept(now).pending.contains_key(id) <==> s.pending.contains_key(id) && now
            <= s.pending[id].at + 5_000_000_000,
        s.swept(now).pending.contains_key(id) ==> s.swept(now).pending[id] == s.pending[id],
        s.swept(now).conns.contains_key(domain) <==> s.conns.contains_key(domain)
            && !s.conns[domain].closed,
        s.swept(now).conns.contains_key(domain) ==> s.swept(now).conns[domain] == s.conns[domain],
        s.swept(now).next_conn == s.next_conn,
{
}

/// What a connection owes: the question that is being written, and after it those that wait, in the order
/// in which they came. The failures are those of the questions of a list, one each and in order.
pub proof fn law_what_a_connection_owes(c: ProxyConnState, ids: Seq<u16>, i: int)
    ensures
        c.phase matches ConnPhase::Writing(id) ==> c.owed().len() == c.jobs.len() + 1 && c.owed()[0] == id
            && (0 <= i < c.jobs.len() ==> c.owed()[i + 1] == c.jobs[i].id),
        !(c.phase is Writing) ==> c.owed().len() == c.jobs.len() && (0 <= i < c.jobs.len()
            ==> c.owed()[i] == c.jobs[i].id),
        failures(ids).len() == ids.len(),
        0 <= i < ids.len() ==> failures(ids)[i] == ProxyEvent::WriteFailed(ids[i]),
{
}

// The manager.

/// What the manager does with something that came back from the connection of a domain: where it answers a
/// question, the answer goes to the question's client. Nothing of the manager changes but the questions
/// that wait.
pub proof fn law_manager_on_what_comes_back(s: UdpState, ev: ProxyEvent)
    ensures
        s.proxy is None ==> s.proxied_back(ev).0 == s && s.proxied_back(ev).1 is Nothing,
        s.proxy matches Some(p) ==> {
            let (after, step) = s.proxied_back(ev);
            &&& after.proxy == Some(p.after_event(ev))
            &&& after.flows == s.flows && after.upstream == s.upstream
            &&& after.dns_server_ip == s.dns_server_ip && after.consecutive_none == s.consecutive_none
                && after.idle_timeout == s.idle_timeout
            &&& p.event_reply(ev, s.upstream is Some) is None ==> step is Nothing
            &&& p.event_reply(ev, s.upstream is Some) matches Some(reply) ==> step == (UdpStep::Reply {
                bytes: reply.bytes,
                dst: reply.server_addr,
                src: reply.client_addr,
            })
        },
{
}

/// What the manager does with a question for a hosting endpoint. One whose number another waits under is
/// dropped. One for a domain without a service is answered with status 2. Any other waits, with its query,
/// its client and the time, and is asked on the connection of its domain, which is dialled to the service
/// unless it is open.
pub proof fn law_manager_on_a_question(
    s: UdpState,
    r: ResolverState,
    q: ProxyQuerySpec,
    b: Seq<u8>,
    dst: SocketAddr,
    src: SocketAddr,
    now: u64,
)
    requires
        s.proxy is Some,
    ensures
        ({
            let p = s.proxy->0;
            let (after, step) = s.asked(r, q, b, dst, src, now);
            &&& p.pending.contains_key(q.id) ==> after == s && step is Nothing
            &&& !p.pending.contains_key(q.id) && r.proxy_service(q.domain) is None ==> after == s && step == (
            UdpStep::Reply {
                bytes: answer(b, q.name_strlen, 2, None, 0, s.upstream is Some),
                dst,
                src,
            })
            &&& !p.pending.contains_key(q.id) ==> (r.proxy_service(q.domain) matches Some(rule) ==> {
                let now_proxy = after.proxy->0;
                &&& after.proxy is Some
                &&& now_proxy.conns == p.connected(rule.service, q.domain).conns
                &&& now_proxy.next_conn == p.connected(rule.service, q.domain).next_conn
                &&& now_proxy.pending.contains_key(q.id)
                &&& now_proxy.pending[q.id].packet == b
                &&& now_proxy.pending[q.id].name_strlen == q.name_strlen
                &&& now_proxy.pending[q.id].server_addr == dst
                &&& now_proxy.pending[q.id].client_addr == src
                &&& now_proxy.pending[q.id].at == now
                &&& after.flows == s.flows && after.upstream == s.upstream && after.dns_server_ip
                    == s.dns_server_ip && after.consecutive_none == s.consecutive_none
                    && after.idle_timeout == s.idle_timeout
                &&& step matches UdpStep::Ask { connect, job } && {
                    &&& connect.conn == now_proxy.conns[q.domain].conn
                    &&& connect.dial <==> !(p.conns.contains_key(q.domain) && !p.conns[q.domain].closed
                        && p.conns[q.domain].service == rule.service)
                    &&& connect.service == rule.service
                    &&& connect.timeout == rule.dial_timeout
                    &&& connect.domain == q.domain
                    &&& job.id == q.id
                    &&& job.json == q.json
                }
            })
        }),
{
}

/// What the manager does with an answer that goes out while the connection of its domain is made: the
/// client gets it at once, and the connection is made where the domain has a service.
pub proof fn law_manager_answers_and_connects(
    s: UdpState,
    r: ResolverState,
    bytes: Seq<u8>,
    domain: Seq<char>,
    dst: SocketAddr,
    src: SocketAddr,
)
    requires
        s.proxy is Some,
    ensures
        ({
            let p = s.proxy->0;
            let (after, step) = s.answered_and_connected(r, bytes, domain, dst, src);
            &&& r.proxy_service(domain) is None ==> after == s && step == (UdpStep::Reply {
                bytes,
                dst,
                src,
            })
            &&& r.proxy_service(domain) matches Some(rule) ==> {
                &&& after.proxy == Some(p.connected(rule.service, domain))
                &&& after.flows == s.flows && after.upstream == s.upstream
                &&& step matches UdpStep::ReplyAndConnect { bytes: out, dst: d, src: c, connect } && {
                    &&& out == bytes && d == dst && c == src
                    &&& connect.conn == p.connected(rule.service, domain).conns[domain].conn
                    &&& connect.dial <==> !(p.conns.contains_key(domain) && !p.conns[domain].closed
                        && p.conns[domain].service == rule.service)
                    &&& connect.service == rule.service
                    &&& connect.timeout == rule.dial_timeout
                    &&& connect.domain == domain
                }
            }
        }),
{
}

/// What the manager does with a datagram for the name server: it answers, drops, passes upstream whole, or
/// asks, as the server says. A query whose number another waits under is not passed upstream again. Of the
/// resolver only the registry of names changes, to what the server leaves.
pub proof fn law_manager_on_a_name_query(
    s: UdpState,
    r: ResolverState,
    b: Seq<u8>,
    dst: SocketAddr,
    src: SocketAddr,
    now: u64,
    id: u16,
)
    ensures
        ({
            let (dns, action) = served(r.dns, b, s.upstream is Some, s.proxy is Some);
            let (after, resolver, step) = s.dns_served(r, b, dst, src, now);
            &&& resolver.dns == dns
            &&& resolver.entries == r.entries && resolver.wildcards == r.wildcards
                && resolver.installed == r.installed
            &&& action matches ActionSpec::Respond(bytes) ==> after == s && step == (UdpStep::Reply {
                bytes,
                dst,
                src,
            })
            &&& action is Drop ==> after == s && step is Nothing
            &&& action matches ActionSpec::ForwardUpstream { on_send_failure } ==> after == s && (
            id == 256 * b[0] + b[1] ==> (if s.upstream->0.pending.contains_key(id) {
                step is Nothing
            } else {
                step == (UdpStep::SendUpstream { request: b, on_send_failure, dst, src })
            }))
            &&& action matches ActionSpec::ForwardProxy(q) ==> after == s.asked(
                resolver,
                q,
                b,
                dst,
                src,
                now,
            ).0 && step == s.asked(resolver, q, b, dst, src, now).1
            &&& action matches ActionSpec::RespondAndConnectProxy { response, domain } ==> after
                == s.answered_and_connected(resolver, response, domain, dst, src).0 && step
                == s.answered_and_connected(resolver, response, domain, dst, src).1
        }),
{
}

/// What the manager does with any other datagram. As long as its flow has an open connection, the datagram
/// is handed to that and nothing else is done. Else it is dropped where no service intercepts it; where one
/// does, a new connection with the datagram on it is made under the next number, the flow is registered
/// under the service with that number, and the service is dialled.
pub proof fn law_manager_on_a_datagram(
    s: UdpState,
    r: ResolverState,
    flows: FlowsState,
    b: Seq<u8>,
    dst: SocketAddr,
    src: SocketAddr,
    now: u64,
)
    ensures
        ({
            let key = FlowKey { src, dst };
            let (after, registered, step) = s.routed(r, flows, b, dst, src, now);
            let open = s.flows.flows.contains_key(key) && !s.flows.vconns[s.flows.flows[key]].closed;
            &&& after.upstream == s.upstream && after.proxy == s.proxy && after.dns_server_ip
                == s.dns_server_ip && after.consecutive_none == s.consecutive_none && after.idle_timeout
                == s.idle_timeout
            &&& open ==> after.flows == s.flows.delivered(key, b) && registered == flows && step is Nothing
            &&& !open && r.dial(Protocol::Udp, dst, src) is None ==> after.flows == s.flows.routed(key)
                && registered == flows && step is Nothing
            &&& !open ==> (r.dial(Protocol::Udp, dst, src) matches Some(d) ==> {
                &&& after.flows == s.flows.routed(key).created(key, flows.registered_total, b, now)
                &&& registered == flows.registered(d.service, Protocol::Udp, src, dst)
                &&& step matches UdpStep::Dial { flow, key: k, dial } && flow == flows.registered_total
                    && k.src == src && k.dst == dst && dial == d
            })
        }),
{
}

/// A question that a connection refused is asked on a new connection of its domain, which is dialled; once
/// it was refused again it has failed.
pub proof fn law_manager_on_a_refusal(s: UdpState, connect: ConnectState, job: JobState)
    ensures
        s.refused(connect, job, true) == s.proxied_back(ProxyEvent::WriteFailed(job.id)),
        s.proxy is None ==> s.refused(connect, job, false).0 == s && s.refused(
            connect,
            job,
            false,
        ).1 is Nothing,
        s.proxy matches Some(p) ==> {
            let (after, step) = s.refused(connect, job, false);
            &&& after.proxy == Some(p.dialled(connect.service, connect.domain))
            &&& after.flows == s.flows && after.upstream == s.upstream && after.dns_server_ip
                == s.dns_server_ip
            &&& step matches UdpStep::Ask { connect: c, job: j } && c.conn == p.next_conn && c.dial
                && c.service == connect.service && c.timeout == connect.timeout && c.domain
                == connect.domain && j == job
        },
        can_connect(s) <==> (s.proxy matches Some(p) ==> p.next_conn < u64::MAX),
{
}

/// What waits, what goes out and what is done is told by its fields as they stand.
pub proof fn law_steps_are_read_as_they_stand(
    h: &ProxyConnHandle,
    p: &ProxyPending,
    reply: &ProxyReply,
    job: &ProxyJob,
    c: &ConnectProxy,
    done: &UdpAction,
)
    ensures
        h@.conn == h.conn && h@.service == h.service@ && h@.closed == h.closed,
        p@.packet == p.packet@ && p@.name_strlen == p.name_strlen && p@.at == p.at,
        p@.server_addr == p.server_addr && p@.client_addr == p.client_addr,
        reply@.bytes == reply.bytes@,
        reply@.server_addr == reply.server_addr && reply@.client_addr == reply.client_addr,
        forall|r: Option<ProxyReply>| #[trigger]
            opt_reply(r) == (match r {
                Some(x) => Some(x@),
                None => None,
            }),
        job@.id == job.id && job@.json == job.json@,
        c@.conn == c.conn && c@.dial == c.dial && c@.service == c.service@,
        c@.timeout == c.timeout && c@.domain == c.domain@,
        match *done {
            UdpAction::Nothing => done@ == UdpStep::Nothing,
            UdpAction::Stop => done@ == UdpStep::Stop,
            UdpAction::Reply { bytes, dst, src } => done@ == (UdpStep::Reply { bytes: bytes@, dst, src }),
            UdpAction::SendUpstream { request, on_send_failure, dst, src } => done@ == (
            UdpStep::SendUpstream {
                request: request@,
                on_send_failure: on_send_failure@,
                dst,
                src,
            }),
            UdpAction::Ask { connect, job } => done@ == (UdpStep::Ask { connect: connect@, job: job@ }),
            UdpAction::ReplyAndConnect { bytes, dst, src, connect } => done@ == (
            UdpStep::ReplyAndConnect { bytes: bytes@, dst, src, connect: connect@ }),
            UdpAction::Dial { flow, key, dial } => done@ == (UdpStep::Dial { flow, key, dial: dial@ }),
        },
{
}

} // verus!
