//! What holds of the traffic that is relayed: the queries passed upstream, the virtual connections, the
//! flows that they carry and the registry of live flows.

use vstd::prelude::*;

use crate::addr::SocketAddr;
use crate::dns_server::be16;
use crate::flows::{ended, ids, living, FlowsState, RegisteredFlow};
use crate::proxy_resolve::fresh_at;
use crate::resolve::Protocol;
use crate::udp_flows::{FlowKey, RouteAction, UdpFlowsState};
use crate::upstream::{id_of, UpstreamState};
use crate::vconn::{datagrams, pieces, Pump, VconnState, WriterStep, WriterStepSpec};

verus! {

// Queries passed upstream.

/// The number of a message is the one that its first two bytes write, the high byte first. So two
/// messages with one number have the same two bytes.
pub proof fn law_number_of_a_message(b: Seq<u8>, c: Seq<u8>)
    requires
        b.len() >= 2,
        c.len() >= 2,
    ensures
        id_of(b) == 256 * b[0] + b[1],
        id_of(b) == id_of(c) <==> b[0] == c[0] && b[1] == c[1],
        be16(b[0], b[1]) == 256 * b[0] + b[1],
{
}

/// A query that a server took waits under its own first two bytes, with the address that it was sent to,
/// its client and the time; every other query waits as it did, and the servers stay the same. One that no
/// server took does not wait, and neither does one whose number another waits under.
pub proof fn law_query_waits_under_its_own_bytes(
    s: UpstreamState,
    request: Seq<u8>,
    accepted: Seq<bool>,
    server: SocketAddr,
    client: SocketAddr,
    at: u64,
    id: u16,
)
    requires
        request.len() >= 2,
    ensures
        ({
            let after = s.forwarded(request, accepted, server, client, at);
            let took = exists|i: int| 0 <= i < accepted.len() && accepted[i];
            let own = 256 * request[0] + request[1];
            &&& after.servers == s.servers
            &&& id != own ==> (after.pending.contains_key(id) <==> s.pending.contains_key(id))
            &&& s.pending.contains_key(id) ==> after.pending.contains_key(id) && after.pending[id]
                == s.pending[id]
            &&& id == own && !s.pending.contains_key(id) ==> (after.pending.contains_key(id) <==> took)
            &&& id == own && !s.pending.contains_key(id) && took ==> after.pending[id].server_addr
                == server && after.pending[id].client_addr == client && after.pending[id].at == at
        }),
{
    if exists|i: int| 0 <= i < accepted.len() && accepted[i] {
        let i = choose|i: int| 0 <= i < accepted.len() && accepted[i];
        assert(accepted[i] == true);
        assert(accepted.contains(true));
    }
    if accepted.contains(true) {
        let i = choose|i: int| 0 <= i < accepted.len() && accepted[i] == true;
        assert(accepted[i]);
    }
}

/// A response goes to the client whose query waits under the response's first two bytes, from the address
/// that the query was sent to, and to nobody where none waits under them or the response is too short to
/// have them. That query then waits no longer; every other waits as it did.
pub proof fn law_response_finds_its_query(s: UpstreamState, response: Seq<u8>, id: u16)
    ensures
        response.len() < 2 ==> s.target(response) is None && s.responded(response) == s,
        response.len() >= 2 && id == 256 * response[0] + response[1] ==> {
            &&& s.pending.contains_key(id) ==> s.target(response) == Some(
                (s.pending[id].server_addr, s.pending[id].client_addr),
            )
            &&& !s.pending.contains_key(id) ==> s.target(response) is None
            &&& !s.responded(response).pending.contains_key(id)
        },
        response.len() >= 2 && id != 256 * response[0] + response[1] ==> {
            &&& s.responded(response).pending.contains_key(id) <==> s.pending.contains_key(id)
            &&& s.pending.contains_key(id) ==> s.responded(response).pending[id] == s.pending[id]
        },
        s.responded(response).servers == s.servers,
{
}

/// A query waits five seconds: at a later time it is forgotten, and until then it waits as it did.
pub proof fn law_query_is_forgotten_after_its_time(s: UpstreamState, id: u16, now: u64)
    ensures
        s.swept(now).pending.contains_key(id) <==> s.pending.contains_key(id) && now
            - s.pending[id].at <= 5_000_000_000,
        s.swept(now).pending.contains_key(id) ==> s.swept(now).pending[id] == s.pending[id],
        s.swept(now).servers == s.servers,
{
}

/// Something is fresh as long as no more than the limit has passed since it began.
pub proof fn law_freshness(at: u64, now: u64, limit: u64)
    ensures
        fresh_at(at, now, limit) <==> now <= at + limit,
{
}

// Virtual connections.

/// A datagram that is handed to an open connection with less than sixteen waiting is the last that waits
/// there, whole; those that waited before it are the same and in the same order, and nothing else of the
/// connection changes. So the writer writes it after them. On a closed or full connection it is dropped.
pub proof fn law_delivered_datagram_waits_last(c: VconnState, d: Seq<u8>, now: u64)
    ensures
        !c.closed && c.queue.len() < 16 ==> {
            &&& c.delivered(d).queue.len() == c.queue.len() + 1
            &&& c.delivered(d).queue.last() == d
            &&& c.delivered(d).queue.drop_last() == c.queue
            &&& c.delivered(d).last_use == c.last_use
            &&& c.delivered(d).closed == c.closed
            &&& c.delivered(d).killed == c.killed
            &&& c.delivered(d).evicted == c.evicted
            &&& c.delivered(d).writer_ended == c.writer_ended
            &&& c.delivered(d).reader_ended == c.reader_ended
            &&& !c.killed && !c.writer_ended ==> c.delivered(d).to_write(now) == c.to_write(now).push(d)
        },
        c.closed || c.queue.len() >= 16 ==> c.delivered(d) == c,
{
    if !c.closed && c.queue.len() < 16 {
        assert(c.delivered(d).queue.drop_last() =~= c.queue);
        if !c.killed && !c.writer_ended {
            crate::vconn::law_everything_that_waits_is_written(c, now);
            crate::vconn::law_everything_that_waits_is_written(c.delivered(d), now);
            assert(c.queue.push(d) =~= c.delivered(d).queue);
        }
    }
}

/// The writer's steps: after a kill or its own end it stops; else it takes the first datagram that waits,
/// whole, and leaves the others as they are; where none waits it stops on a connection that is closed or
/// was given up, and waits on any other.
pub proof fn law_writer_takes_the_first(c: VconnState, d: Seq<u8>, rest: Seq<Seq<u8>>, now: u64)
    ensures
        c.killed || c.writer_ended ==> c.writer_next(now).0 == c && c.writer_next(now).1 is Stop,
        !c.killed && !c.writer_ended && c.queue == seq![d] + rest ==> {
            let (after, step) = c.writer_next(now);
            &&& step == WriterStepSpec::Write(d)
            &&& after.queue == rest
            &&& after.last_use == now
            &&& after.closed == c.closed
            &&& after.killed == c.killed
            &&& after.evicted == c.evicted
            &&& after.writer_ended == c.writer_ended
            &&& after.reader_ended == c.reader_ended
        },
        !c.killed && !c.writer_ended && c.queue.len() == 0 ==> c.writer_next(now).0 == c && (if c.closed
            || c.evicted {
            c.writer_next(now).1 is Stop
        } else {
            c.writer_next(now).1 is Wait
        }),
{
    if c.queue == seq![d] + rest {
        assert(c.queue.skip(1) =~= rest);
    }
}

/// A connection is closed when a pump of it ends, and that pump has then ended; when its dial fails it is
/// closed and neither pump runs. It is over once both have ended. Its reader goes on until a close or a
/// kill. Nothing that waits is lost by any of this.
pub proof fn law_ends_of_a_connection(c: VconnState)
    ensures
        ({
            let w = c.pump_ended(Pump::Writer);
            let r = c.pump_ended(Pump::Reader);
            let f = c.dial_failed();
            &&& w.closed && w.writer_ended && w.reader_ended == c.reader_ended
            &&& r.closed && r.reader_ended && r.writer_ended == c.writer_ended
            &&& f.closed && f.writer_ended && f.reader_ended
            &&& w.queue == c.queue && r.queue == c.queue && f.queue == c.queue
            &&& w.killed == c.killed && r.killed == c.killed && f.killed == c.killed
            &&& w.evicted == c.evicted && r.evicted == c.evicted && f.evicted == c.evicted
            &&& w.last_use == c.last_use && r.last_use == c.last_use && f.last_use == c.last_use
            &&& w.pump_ended(Pump::Reader).over() && r.pump_ended(Pump::Writer).over()
            &&& f.over()
            &&& !c.reader_ended ==> !w.over()
            &&& !c.writer_ended ==> !r.over()
        }),
        c.reading() <==> !c.killed && !c.closed,
{
}

/// A connection is to be given up just if it is closed or more than the idle time has passed since
/// something last passed on it.
pub proof fn law_when_a_connection_expires(c: VconnState, idle: u64, now: u64)
    ensures
        c.expired(idle, now) <==> c.closed || now > c.last_use + idle,
        !c.closed && now <= c.last_use ==> !c.expired(idle, now),
{
}

/// A chunk is cut from its start: every piece but the last has as many bytes as a piece may, and the last
/// has what is left. A chunk that one piece can hold is one piece; an empty one is none.
pub proof fn law_pieces_are_full(chunk: Seq<u8>, max: int, i: int)
    requires
        max > 0,
        0 <= i < pieces(chunk, max).len(),
    ensures
        pieces(Seq::<u8>::empty(), max).len() == 0,
        0 < chunk.len() <= max ==> pieces(chunk, max) == seq![chunk],
        i < pieces(chunk, max).len() - 1 ==> pieces(chunk, max)[i].len() == max,
        pieces(chunk, max)[i] == chunk.subrange(
            i * max,
            if i < pieces(chunk, max).len() - 1 {
                i * max + max
            } else {
                chunk.len() as int
            },
        ),
        i * max < chunk.len(),
        i < pieces(chunk, max).len() - 1 ==> i * max + max < chunk.len(),
    decreases chunk.len(),
{
    let all = pieces(chunk, max);
    if chunk.len() <= max {
        assert(all =~= seq![chunk]);
        assert(i * max == 0) by (nonlinear_arith)
            requires
                i == 0,
        ;
        assert(chunk.subrange(0, chunk.len() as int) =~= chunk);
    } else {
        let rest = pieces(chunk.skip(max), max);
        assert(all.len() == rest.len() + 1);
        if i == 0 {
            assert(i * max == 0) by (nonlinear_arith)
                requires
                    i == 0,
            ;
            assert(rest.len() > 0);
            assert(all[0] =~= chunk.subrange(0, max));
        } else {
            law_pieces_are_full(chunk.skip(max), max, i - 1);
            assert(all[i] == rest[i - 1]);
            assert((i - 1) * max == i * max - max) by (nonlinear_arith);
            assert(0 <= (i - 1) * max) by (nonlinear_arith)
                requires
                    i >= 1,
                    max > 0,
            ;
            assert(all[i] =~= chunk.subrange(
                i * max,
                if i < all.len() - 1 {
                    i * max + max
                } else {
                    chunk.len() as int
                },
            ));
        }
    }
}

/// The sizes and times that the relay goes by.
pub proof fn law_limits_of_the_relay()
    ensures
        crate::vconn::VCONN_QUEUE_DEPTH == 16,
        crate::proxy::PROXY_BUF == 16367,
        crate::udp_flows::VCONN_IDLE_TIMEOUT == 300_000_000_000,
        crate::udp_flows::VCONN_POLL_INTERVAL == 30_000_000_000,
        crate::upstream::DNS_UPSTREAM_BUF == 4096,
        crate::upstream::DNS_UPSTREAM_TIMEOUT == 5_000_000_000,
        crate::proxy_resolve::PROXY_PENDING_TIMEOUT == 5_000_000_000,
        crate::udp::MAX_CONSECUTIVE_RECV_NONE == 1024,
        crate::stack::UDP_REPLY_QUEUE_DEPTH == 1024,
        crate::stack::DEVICE_READ_BUF == 65535,
        crate::proxy_resolve::RESOLVE_APP_DATA@ == "{\"connType\":\"resolver\"}"@,
{
}

/// The datagrams of a list are the bytes of its members, in order; the datagram of a step of the writer is
/// the one that it writes.
pub proof fn law_datagrams_of_a_list(v: Seq<Vec<u8>>, step: &WriterStep, i: int)
    ensures
        match *step {
            WriterStep::Write(d) => step@ == WriterStepSpec::Write(d@),
            WriterStep::Wait => step@ is Wait,
            WriterStep::Stop => step@ is Stop,
        },
        datagrams(v).len() == v.len(),
        0 <= i < v.len() ==> datagrams(v)[i] == v[i]@,
{
}

// The flows and their connections.

/// A datagram is handed to the flow's connection as long as that takes datagrams: the flow has one and it
/// is not closed. Otherwise a new connection is made. A closed connection is first given up by its flow;
/// nothing else changes.
pub proof fn law_where_a_datagram_goes(s: UdpFlowsState, key: FlowKey, other: FlowKey, id: u64)
    ensures
        s.route(key) == (if s.flows.contains_key(key) && !s.vconns[s.flows[key]].closed {
            RouteAction::Deliver
        } else {
            RouteAction::CreateNew
        }),
        s.live(key) <==> s.flows.contains_key(key) && !s.vconns[s.flows[key]].closed,
        s.live(key) || !s.flows.contains_key(key) ==> s.routed(key) == s,
        s.flows.contains_key(key) && s.vconns[s.flows[key]].closed ==> {
            let after = s.routed(key);
            let old_id = s.flows[key];
            &&& !after.flows.contains_key(key)
            &&& other != key ==> (after.flows.contains_key(other) <==> s.flows.contains_key(other))
            &&& other != key && s.flows.contains_key(other) ==> after.flows[other] == s.flows[other]
            &&& after.vconns.contains_key(old_id)
            &&& after.vconns[old_id].evicted
            &&& after.vconns[old_id].queue == s.vconns[old_id].queue
            &&& after.vconns[old_id].closed
            &&& after.vconns[old_id].killed == s.vconns[old_id].killed
            &&& after.vconns[old_id].writer_ended == s.vconns[old_id].writer_ended
            &&& after.vconns[old_id].reader_ended == s.vconns[old_id].reader_ended
            &&& after.vconns[old_id].last_use == s.vconns[old_id].last_use
            &&& id != old_id ==> (after.vconns.contains_key(id) <==> s.vconns.contains_key(id))
            &&& id != old_id && s.vconns.contains_key(id) ==> after.vconns[id] == s.vconns[id]
        },
{
}

/// A new connection has its flow's first datagram waiting, whole and alone, is used as of now and is open;
/// the other flows and connections stay as they are.
pub proof fn law_new_connection_has_its_first_datagram(
    s: UdpFlowsState,
    key: FlowKey,
    id: u64,
    first: Seq<u8>,
    now: u64,
    other: FlowKey,
    other_id: u64,
)
    ensures
        ({
            let after = s.created(key, id, first, now);
            &&& after.flows.contains_key(key) && after.flows[key] == id
            &&& after.vconns.contains_key(id)
            &&& after.vconns[id].queue == seq![first]
            &&& after.vconns[id].last_use == now
            &&& !after.vconns[id].closed && !after.vconns[id].killed && !after.vconns[id].evicted
            &&& !after.vconns[id].writer_ended && !after.vconns[id].reader_ended
            &&& after.vconns[id].to_write(now) == seq![first]
            &&& other != key ==> (after.flows.contains_key(other) <==> s.flows.contains_key(other))
            &&& other != key && s.flows.contains_key(other) ==> after.flows[other] == s.flows[other]
            &&& other_id != id ==> (after.vconns.contains_key(other_id) <==> s.vconns.contains_key(
                other_id,
            ))
            &&& other_id != id && s.vconns.contains_key(other_id) ==> after.vconns[other_id]
                == s.vconns[other_id]
        }),
{
    let after = s.created(key, id, first, now);
    crate::vconn::law_everything_that_waits_is_written(after.vconns[id], now);
}

/// A datagram of a flow goes to the flow's connection and to no other.
pub proof fn law_datagram_goes_to_its_own_connection(
    s: UdpFlowsState,
    key: FlowKey,
    d: Seq<u8>,
    id: u64,
)
    requires
        s.wf(),
        s.flows.contains_key(key),
    ensures
        s.delivered(key, d).flows == s.flows,
        !s.vconns[s.flows[key]].closed && s.vconns[s.flows[key]].queue.len() < 16 ==> s.delivered(
            key,
            d,
        ).vconns[s.flows[key]].queue == s.vconns[s.flows[key]].queue.push(d),
        id != s.flows[key] ==> (s.delivered(key, d).vconns.contains_key(id) <==> s.vconns.contains_key(
            id,
        )),
        id != s.flows[key] && s.vconns.contains_key(id) ==> s.delivered(key, d).vconns[id]
            == s.vconns[id],
        s.with(id, s.vconns[id]).flows == s.flows,
{
}

/// A kill reaches the connections whose numbers it names and no other, and changes nothing else.
pub proof fn law_kill_reaches_no_other(s: UdpFlowsState, numbers: Seq<u64>, id: u64)
    ensures
        s.killed(numbers).flows == s.flows,
        s.killed(numbers).vconns.contains_key(id) <==> s.vconns.contains_key(id),
        s.vconns.contains_key(id) ==> {
            let c = s.killed(numbers).vconns[id];
            &&& (exists|i: int| 0 <= i < numbers.len() && numbers[i] == id) ==> c.killed
            &&& !(exists|i: int| 0 <= i < numbers.len() && numbers[i] == id) ==> c == s.vconns[id]
            &&& c.queue == s.vconns[id].queue && c.closed == s.vconns[id].closed && c.evicted
                == s.vconns[id].evicted && c.last_use == s.vconns[id].last_use
            &&& c.writer_ended == s.vconns[id].writer_ended && c.reader_ended
                == s.vconns[id].reader_ended
        },
{
    if exists|i: int| 0 <= i < numbers.len() && numbers[i] == id {
        assert(numbers.contains(id));
    }
}

/// A connection is forgotten just once it was given up and both its pumps have ended.
pub proof fn law_only_spent_connections_are_forgotten(s: UdpFlowsState, id: u64)
    ensures
        s.tidied().flows == s.flows,
        s.tidied().vconns.contains_key(id) <==> s.vconns.contains_key(id) && !(s.vconns[id].evicted
            && s.vconns[id].writer_ended && s.vconns[id].reader_ended),
        s.tidied().vconns.contains_key(id) ==> s.tidied().vconns[id] == s.vconns[id],
{
}

/// When the idle connections are looked for, a flow keeps its connection just if that is open and was used
/// within the idle time. The connections that are closed or idle are given up, and nothing else of them or
/// of the others changes.
pub proof fn law_idle_connections_are_given_up(
    s: UdpFlowsState,
    idle: u64,
    now: u64,
    key: FlowKey,
    id: u64,
)
    ensures
        s.swept(idle, now).flows.contains_key(key) <==> s.flows.contains_key(key)
            && !s.vconns[s.flows[key]].closed && now <= s.vconns[s.flows[key]].last_use + idle,
        s.swept(idle, now).flows.contains_key(key) ==> s.swept(idle, now).flows[key] == s.flows[key],
        s.swept(idle, now).vconns.contains_key(id) <==> s.vconns.contains_key(id),
        s.vconns.contains_key(id) ==> {
            let c = s.vconns[id];
            let after = s.swept(idle, now).vconns[id];
            &&& c.closed || now > c.last_use + idle ==> after.evicted
            &&& !c.closed && now <= c.last_use + idle ==> after == c
            &&& after.queue == c.queue && after.closed == c.closed && after.killed == c.killed
            &&& after.last_use == c.last_use && after.writer_ended == c.writer_ended
                && after.reader_ended == c.reader_ended
        },
{
}

// The registry of live flows.

/// The living flows of a list are those of its parts, one after the other.
pub proof fn law_living_flows_of_a_list(
    a: Seq<RegisteredFlow>,
    f: RegisteredFlow,
    b: Seq<RegisteredFlow>,
)
    ensures
        living(a + b) == living(a) + living(b),
        living(seq![f]) == (if f.live {
            seq![f]
        } else {
            Seq::<RegisteredFlow>::empty()
        }),
    decreases b.len(),
{
    assert(seq![f].drop_last() =~= Seq::<RegisteredFlow>::empty());
    assert(living(seq![f].drop_last()) =~= Seq::<RegisteredFlow>::empty());
    if b.len() == 0 {
        assert(a + b =~= a);
        assert(living(b) =~= Seq::<RegisteredFlow>::empty());
        assert(living(a) + living(b) =~= living(a));
    } else {
        let rest = b.drop_last();
        law_living_flows_of_a_list(a, f, rest);
        assert((a + b).drop_last() =~= a + rest);
        assert((a + b).last() == b.last());
        assert(living(a + rest).push(b.last()) =~= living(a) + living(rest).push(b.last()));
    }
}

/// A flow is registered last under its service, with the next number, alive; before it stand the living
/// flows of the service. The flows of the other services stay as they are.
pub proof fn law_registered_flow(
    s: FlowsState,
    service: Seq<char>,
    proto: Protocol,
    src: SocketAddr,
    dst: SocketAddr,
    other: Seq<char>,
)
    requires
        s.registered_total < u64::MAX,
    ensures
        ({
            let after = s.registered(service, proto, src, dst);
            &&& after.registered_total == s.registered_total + 1
            &&& after.flows.contains_key(service)
            &&& after.of(service).len() > 0
            &&& after.of(service).last().id == s.registered_total
            &&& after.of(service).last().proto == proto
            &&& after.of(service).last().src == src
            &&& after.of(service).last().dst == dst
            &&& after.of(service).last().live
            &&& after.of(service).drop_last() == living(s.of(service))
            &&& other != service ==> after.of(other) == s.of(other)
            &&& other != service ==> (after.flows.contains_key(other) <==> s.flows.contains_key(other))
        }),
        s.flows.contains_key(service) ==> s.of(service) == s.flows[service],
        !s.flows.contains_key(service) ==> s.of(service).len() == 0,
{
    let after = s.registered(service, proto, src, dst);
    assert(after.of(service).drop_last() =~= living(s.of(service)));
}

/// The end of a task is the end of the flow of that number alone; the list keeps its order and every flow
/// keeps what else is known of it.
pub proof fn law_end_of_a_flow(s: Seq<RegisteredFlow>, id: u64, i: int)
    requires
        0 <= i < s.len(),
    ensures
        ended(s, id).len() == s.len(),
        s[i].id == id ==> !ended(s, id)[i].live,
        s[i].id != id ==> ended(s, id)[i] == s[i],
        ended(s, id)[i].id == s[i].id,
        ended(s, id)[i].proto == s[i].proto,
        ended(s, id)[i].src == s[i].src,
        ended(s, id)[i].dst == s[i].dst,
        ids(s).len() == s.len(),
        ids(s)[i] == s[i].id,
{
}

} // verus!
