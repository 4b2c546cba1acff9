//! Questions that the endpoint hosting a service answers: a query for a mail exchanger, a service
//! location or a text record, under a domain that the service has claimed.
//!
//! Each domain has one connection to its endpoint, made when it is first needed and made anew once it
//! has closed or the domain has another owner. A question waits, by its number, for the reply that
//! carries the same number, for the failure of its write, or for its time to run out.

use vstd::prelude::*;

use crate::addr::SocketAddr;
use crate::dns_server::{
    format_resp_answers, ProxyQuery, RespAnswer, DNS_NO_ERROR, DNS_SERVFAIL, TYPE_MX, TYPE_SRV,
    TYPE_TXT,
};
#[allow(unused_imports)]
use crate::dns_server::{
    answer, answer_specs, holds_question, opt_answers, AnswerSpec, ProxyQuerySpec,
};
use crate::table::Table;

verus! {

pub const NANOS_PER_SEC: u64 = 1_000_000_000;

/// How long a question waits for its reply, in nanoseconds.
pub const PROXY_PENDING_TIMEOUT: u64 = 5 * NANOS_PER_SEC;

/// What tells an endpoint, at the dial, that the connection carries questions.
pub const RESOLVE_APP_DATA: &'static str = "{\"connType\":\"resolver\"}";

/// A question, as a reply repeats it.
#[derive(Debug, PartialEq, Eq)]
pub struct WireQuestion {
    pub name: String,
    pub atype: i64,
}

/// A record of a reply.
#[derive(Debug, PartialEq, Eq)]
pub struct WireAnswer {
    pub atype: i64,
    pub ttl: i64,
    pub priority: i64,
    pub weight: i64,
    pub port: i64,
    pub name: String,
    pub data: Option<String>,
}

/// A reply of an endpoint, with every field of its form; one that was left out has its default.
#[derive(Debug, PartialEq, Eq)]
pub struct WireMsg {
    pub status: i64,
    pub id: i64,
    pub recursive: i64,
    pub question: Vec<WireQuestion>,
    pub answer: Option<Vec<WireAnswer>>,
    pub comment: String,
}

/// What is used of a reply: the number of its question, and its records, if it lists any.
#[derive(Debug, PartialEq, Eq)]
pub struct PeerResponse {
    pub id: u16,
    pub answers: Option<Vec<RespAnswer>>,
}

/// Whether a record of this type is made from its data.
pub open spec fn data_needed(atype: i64) -> bool {
    atype == TYPE_MX || atype == TYPE_TXT || atype == TYPE_SRV
}

/// Whether a record can be passed on: it has its data, or needs none.
pub open spec fn usable(a: WireAnswer) -> bool {
    a.data is Some || !data_needed(a.atype)
}

/// A record as it is passed on.
pub open spec fn passed_on(a: WireAnswer) -> AnswerSpec {
    AnswerSpec {
        atype: a.atype,
        ttl: a.ttl,
        priority: a.priority,
        weight: a.weight,
        port: a.port,
        data: match a.data {
            Some(d) => d@,
            None => Seq::empty(),
        },
    }
}

/// The records of a list as they are passed on.
pub open spec fn all_passed_on(s: Seq<WireAnswer>) -> Seq<AnswerSpec> {
    s.map_values(|a: WireAnswer| passed_on(a))
}

/// Whether every record of a reply can be passed on.
pub open spec fn acceptable(msg: WireMsg) -> bool {
    msg.answer matches Some(list) ==> forall|i: int|
        0 <= i < list@.len() ==> usable(#[trigger] list@[i])
}

/// The records of a reply, if it lists any.
pub open spec fn records_of(msg: WireMsg) -> Option<Seq<AnswerSpec>> {
    match msg.answer {
        Some(list) => Some(all_passed_on(list@)),
        None => None,
    }
}

/// Whether a record of this type is made from its data.
pub fn needs_data(atype: i64) -> (r: bool)
    ensures
        r == data_needed(atype),
{
    atype == TYPE_MX as i64 || atype == TYPE_TXT as i64 || atype == TYPE_SRV as i64
}

/// Takes from a reply what is used of it; `None` if a record lacks the data that it is made from. The
/// number is cut to sixteen bits. The status of the reply does not count.
pub fn parse_peer_response(msg: WireMsg) -> (r: Option<PeerResponse>)
    ensures
        r is Some <==> acceptable(msg),
        r matches Some(p) ==> p.id == msg.id as u16 && opt_answers(p.answers) == records_of(msg),
{
    let id: u16 = msg.id as u16;
    match msg.answer {
        None => Some(PeerResponse { id, answers: None }),
        Some(list) => {
            let ghost all = list@;
            let mut out: Vec<RespAnswer> = Vec::new();
            for a in it: list.into_iter()
                invariant
                    it.seq() == all,
                    msg.answer is Some,
                    msg.answer->0@ == all,
                    answer_specs(out@) == all_passed_on(all.take(it.index())),
                    forall|i: int| 0 <= i < it.index() ==> usable(#[trigger] all[i]),
            {
                let ghost k = it.index();
                let ghost before = out@;
                assert(a == all[k]);
                let data: String = match a.data {
                    Some(d) => d,
                    None => {
                        if needs_data(a.atype) {
                            assert(!usable(all[k]));
                            return None;
                        }
                        String::new()
                    },
                };
                out.push(
                    RespAnswer {
                        atype: a.atype,
                        ttl: a.ttl,
                        priority: a.priority,
                        weight: a.weight,
                        port: a.port,
                        data,
                    },
                );
                proof {
                    assert(out@.last()@.data =~= passed_on(all[k]).data);
                    let want = all_passed_on(all.take(k + 1));
                    assert(answer_specs(before).len() == k);
                    assert forall|i: int| 0 <= i <= k implies answer_specs(out@)[i] == want[i] by {
                        if i < k {
                            assert(out@[i] == before[i]);
                            assert(answer_specs(before)[i] == all_passed_on(all.take(k))[i]);
                        }
                    }
                    assert(answer_specs(out@) =~= want);
                }
            }
            assert(all.take(all.len() as int) =~= all);
            Some(PeerResponse { id, answers: Some(out) })
        },
    }
}

/// What comes back from a domain's connection.
#[derive(Debug, PartialEq, Eq)]
pub enum ProxyEvent {
    /// A reply; `None` where the bytes that came hold none.
    Data(Option<WireMsg>),
    /// The question of this number could not be written.
    WriteFailed(u16),
}

/// A question to write to a connection.
#[derive(Debug, PartialEq, Eq)]
pub struct ProxyJob {
    pub id: u16,
    pub json: Vec<u8>,
}

/// The connection of a domain: its number, the service that it was dialled to, and whether it has
/// closed.
#[derive(Debug, PartialEq, Eq)]
pub struct ProxyConnHandle {
    pub conn: u64,
    pub service: String,
    pub closed: bool,
}

/// The connection of a domain.
pub struct ConnState {
    pub conn: u64,
    pub service: Seq<char>,
    pub closed: bool,
}

impl View for ProxyConnHandle {
    type V = ConnState;

    open spec fn view(&self) -> ConnState {
        ConnState { conn: self.conn, service: self.service@, closed: self.closed }
    }
}

/// A question that waits: the query that it came from, the address that the answer comes from, the
/// client that it goes to, and when it was asked.
#[derive(Debug, PartialEq, Eq)]
pub struct ProxyPending {
    pub packet: Vec<u8>,
    pub name_strlen: usize,
    pub server_addr: SocketAddr,
    pub client_addr: SocketAddr,
    pub at: u64,
}

/// A question that waits.
pub struct PendingState {
    pub packet: Seq<u8>,
    pub name_strlen: int,
    pub server_addr: SocketAddr,
    pub client_addr: SocketAddr,
    pub at: u64,
}

impl View for ProxyPending {
    type V = PendingState;

    open spec fn view(&self) -> PendingState {
        PendingState {
            packet: self.packet@,
            name_strlen: self.name_strlen as int,
            server_addr: self.server_addr,
            client_addr: self.client_addr,
            at: self.at,
        }
    }
}

/// Whether something that began at `at` is, at `now`, no older than `limit`.
pub open spec fn fresh_at(at: u64, now: u64, limit: u64) -> bool {
    now - at <= limit
}

/// Whether something that began at `at` is, at `now`, no older than `limit`.
pub fn is_fresh(at: u64, now: u64, limit: u64) -> (r: bool)
    ensures
        r == fresh_at(at, now, limit),
{
    now <= at || now - at <= limit
}

/// The connections by domain, the questions that wait by number, and the number of the next connection.
pub struct ProxyState {
    pub conns: Map<Seq<char>, ConnState>,
    pub pending: Map<u16, PendingState>,
    pub next_conn: u64,
}

/// An answer to deliver: its bytes, the address that it comes from, and the client that it goes to.
#[derive(Debug, PartialEq, Eq)]
pub struct ProxyReply {
    pub bytes: Vec<u8>,
    pub server_addr: SocketAddr,
    pub client_addr: SocketAddr,
}

/// An answer to deliver.
pub struct ReplyState {
    pub bytes: Seq<u8>,
    pub server_addr: SocketAddr,
    pub client_addr: SocketAddr,
}

impl View for ProxyReply {
    type V = ReplyState;

    open spec fn view(&self) -> ReplyState {
        ReplyState {
            bytes: self.bytes@,
            server_addr: self.server_addr,
            client_addr: self.client_addr,
        }
    }
}

/// The answer to deliver, if there is one.
pub open spec fn opt_reply(r: Option<ProxyReply>) -> Option<ReplyState> {
    match r {
        Some(reply) => Some(reply@),
        None => None,
    }
}

/// What to do with a question.
#[derive(Debug, PartialEq, Eq)]
pub enum Forwarded {
    /// Nothing: one of that number waits already.
    Duplicate,
    /// Answer it now.
    Reply(Vec<u8>),
    /// Write it to the connection, which is to be dialled first where `dial` holds.
    Send { conn: u64, dial: bool, domain: String, job: ProxyJob },
}

impl ProxyState {
    /// What holds in every state: a waiting question can be answered, and the numbers of the
    /// connections are below the next one.
    pub open spec fn wf(self) -> bool {
        &&& forall|id: u16| #[trigger]
            self.pending.contains_key(id) ==> holds_question(
                self.pending[id].packet,
                self.pending[id].name_strlen,
            )
        &&& forall|d: Seq<char>| #[trigger]
            self.conns.contains_key(d) ==> self.conns[d].conn < self.next_conn
    }

    /// Whether the domain has an open connection to the service.
    pub open spec fn reusable(self, service: Seq<char>, domain: Seq<char>) -> bool {
        self.conns.contains_key(domain) && !self.conns[domain].closed && self.conns[domain].service
            == service
    }

    /// The state with a new connection to the service for the domain.
    pub open spec fn dialled(self, service: Seq<char>, domain: Seq<char>) -> ProxyState {
        ProxyState {
            conns: self.conns.insert(
                domain,
                ConnState { conn: self.next_conn, service, closed: false },
            ),
            next_conn: (self.next_conn + 1) as u64,
            ..self
        }
    }

    /// The state in which the domain has an open connection to the service.
    pub open spec fn connected(self, service: Seq<char>, domain: Seq<char>) -> ProxyState {
        if self.reusable(service, domain) {
            self
        } else {
            self.dialled(service, domain)
        }
    }

    /// The state once the connection of that number has closed.
    pub open spec fn closed(self, domain: Seq<char>, conn: u64) -> ProxyState {
        if self.conns.contains_key(domain) && self.conns[domain].conn == conn {
            ProxyState {
                conns: self.conns.insert(
                    domain,
                    ConnState { closed: true, ..self.conns[domain] },
                ),
                ..self
            }
        } else {
            self
        }
    }

    /// The state with one more question waiting.
    pub open spec fn waiting(self, id: u16, p: PendingState) -> ProxyState {
        ProxyState { pending: self.pending.insert(id, p), ..self }
    }

    /// The state without the question of that number.
    pub open spec fn answered(self, id: u16) -> ProxyState {
        ProxyState { pending: self.pending.remove(id), ..self }
    }

    /// The answer to the question of that number; none where it does not wait.
    pub open spec fn completion(
        self,
        id: u16,
        status: u8,
        answers: Option<Seq<AnswerSpec>>,
        recursion_available: bool,
    ) -> Option<ReplyState> {
        if self.pending.contains_key(id) {
            let p = self.pending[id];
            Some(
                ReplyState {
                    bytes: answer(
                        p.packet,
                        p.name_strlen,
                        status,
                        answers,
                        0,
                        recursion_available,
                    ),
                    server_addr: p.server_addr,
                    client_addr: p.client_addr,
                },
            )
        } else {
            None
        }
    }

    /// The state after something came back from a connection.
    pub open spec fn after_event(self, ev: ProxyEvent) -> ProxyState {
        match ev {
            ProxyEvent::WriteFailed(id) => self.answered(id),
            ProxyEvent::Data(Some(msg)) => if acceptable(msg) {
                self.answered(msg.id as u16)
            } else {
                self
            },
            ProxyEvent::Data(None) => self,
        }
    }

    /// The answer to deliver after something came back from a connection: a failure for a question that
    /// could not be written, a success with the records of the reply for one that was replied to.
    pub open spec fn event_reply(self, ev: ProxyEvent, recursion_available: bool) -> Option<ReplyState> {
        match ev {
            ProxyEvent::WriteFailed(id) => self.completion(
                id,
                DNS_SERVFAIL,
                None,
                recursion_available,
            ),
            ProxyEvent::Data(Some(msg)) => if acceptable(msg) {
                self.completion(
                    msg.id as u16,
                    DNS_NO_ERROR,
                    records_of(msg),
                    recursion_available,
                )
            } else {
                None
            },
            ProxyEvent::Data(None) => None,
        }
    }

    /// The state without the questions whose time has run out and without closed connections.
    pub open spec fn swept(self, now: u64) -> ProxyState {
        ProxyState {
            conns: self.conns.restrict(
                Set::new(|d: Seq<char>| self.conns.contains_key(d) && !self.conns[d].closed),
            ),
            pending: self.pending.restrict(
                Set::new(
                    |id: u16|
                        self.pending.contains_key(id) && fresh_at(
                            self.pending[id].at,
                            now,
                            PROXY_PENDING_TIMEOUT,
                        ),
                ),
            ),
            ..self
        }
    }
}

/// The connections of the domains and the questions that wait for a reply.
pub struct ProxyDns {
    conns: Table<String, ProxyConnHandle>,
    pending: Table<u16, ProxyPending>,
    next_conn: u64,
}

impl View for ProxyDns {
    type V = ProxyState;

    closed spec fn view(&self) -> ProxyState {
        ProxyState {
            conns: self.conns@.map_values(|h: ProxyConnHandle| h@),
            pending: self.pending@.map_values(|p: ProxyPending| p@),
            next_conn: self.next_conn,
        }
    }
}

impl ProxyDns {
    /// What holds of every such set.
    pub closed spec fn wf(&self) -> bool {
        self.conns.wf() && self.pending.wf() && self@.wf()
    }

    /// No connections, and nothing that waits.
    pub fn new() -> (r: Self)
        ensures
            r.wf(),
            r@ == (ProxyState { conns: Map::empty(), pending: Map::empty(), next_conn: 0 }),
    {
        let r = ProxyDns { conns: Table::new(), pending: Table::new(), next_conn: 0 };
        assert(r@.conns =~= Map::<Seq<char>, ConnState>::empty());
        assert(r@.pending =~= Map::<u16, PendingState>::empty());
        r
    }

    /// The number of questions that wait.
    pub fn pending_len(&self) -> (r: usize)
        requires
            self.wf(),
        ensures
            r == self@.pending.dom().len(),
    {
        assert(self@.pending.dom() =~= self.pending@.dom());
        self.pending.len()
    }

    /// Whether a question of that number waits.
    pub fn is_pending(&self, id: u16) -> (r: bool)
        requires
            self.wf(),
        ensures
            r == self@.pending.contains_key(id),
    {
        self.pending.contains(&id)
    }

    /// The number of connections.
    pub fn conns_len(&self) -> (r: usize)
        requires
            self.wf(),
        ensures
            r == self@.conns.dom().len(),
    {
        assert(self@.conns.dom() =~= self.conns@.dom());
        self.conns.len()
    }

    /// Makes a new connection of the domain to the service and gives its number.
    fn fresh_handle(&mut self, service: &str, domain: &str) -> (r: u64)
        requires
            old(self).wf(),
            old(self)@.next_conn < u64::MAX,
        ensures
            final(self).wf(),
            r == old(self)@.next_conn,
            final(self)@ == old(self)@.dialled(service@, domain@),
    {
        let ghost before = self@;
        let conn: u64 = self.next_conn;
        self.conns.insert(
            domain.to_owned(),
            ProxyConnHandle { conn, service: service.to_owned(), closed: false },
        );
        self.next_conn = conn + 1;
        assert(self@.conns =~= before.dialled(service@, domain@).conns);
        assert(self@.pending =~= before.pending);
        conn
    }

    /// Whether a connection can still be given a number.
    pub fn connects(&self) -> (r: bool)
        ensures
            r == (self@.next_conn < u64::MAX),
    {
        self.next_conn < u64::MAX
    }

    /// The open connection of the domain to the service: its number, and whether it has yet to be
    /// dialled. One that has closed, or that was dialled to another service, is replaced.
    pub fn live_handle(&mut self, service: &str, domain: &str) -> (r: (u64, bool))
        requires
            old(self).wf(),
            old(self)@.next_conn < u64::MAX,
        ensures
            final(self).wf(),
            final(self)@ == old(self)@.connected(service@, domain@),
            r.0 == final(self)@.conns[domain@].conn,
            r.1 == !old(self)@.reusable(service@, domain@),
    {
        let key: String = domain.to_owned();
        let owner: String = service.to_owned();
        if let Some(h) = self.conns.get(&key) {
            assert(self@.conns[domain@] == h@);
            if !h.closed && h.service == owner {
                return (h.conn, false);
            }
        }
        assert(!old(self)@.reusable(service@, domain@));
        (self.fresh_handle(service, domain), true)
    }

    /// Sees to it that the domain has a connection to the service, without writing to it.
    pub fn ensure_conn(&mut self, service: &str, domain: &str) -> (r: (u64, bool))
        requires
            old(self).wf(),
            old(self)@.next_conn < u64::MAX,
        ensures
            final(self).wf(),
            final(self)@ == old(self)@.connected(service@, domain@),
            r.0 == final(self)@.conns[domain@].conn,
            r.1 == !old(self)@.reusable(service@, domain@),
    {
        self.live_handle(service, domain)
    }

    /// Replaces the connection of the domain, whatever its state: it no longer takes questions.
    pub fn replace_handle(&mut self, service: &str, domain: &str) -> (r: u64)
        requires
            old(self).wf(),
            old(self)@.next_conn < u64::MAX,
        ensures
            final(self).wf(),
            r == old(self)@.next_conn,
            final(self)@ == old(self)@.dialled(service@, domain@),
    {
        self.fresh_handle(service, domain)
    }

    /// Records that a connection of the domain has closed.
    pub fn conn_closed(&mut self, domain: &str, conn: u64)
        requires
            old(self).wf(),
        ensures
            final(self).wf(),
            final(self)@ == old(self)@.closed(domain@, conn),
    {
        let ghost before = self@;
        let key: String = domain.to_owned();
        match self.conns.remove(&key) {
            None => {
                assert(self@.conns =~= before.conns);
            },
            Some(h) => {
                assert(before.conns[domain@] == h@);
                let closed: bool = h.closed || h.conn == conn;
                self.conns.insert(
                    key,
                    ProxyConnHandle { conn: h.conn, service: h.service, closed },
                );
                assert(self@.conns =~= before.closed(domain@, conn).conns);
            },
        }
        assert(self@.pending =~= before.pending);
    }

    /// Forwards a question to the endpoint of `service`, which owns the question's domain; it then
    /// waits. Where no service owns the domain any more, it is answered as failed at once. One whose
    /// number waits already is dropped.
    pub fn handle_forward(
        &mut self,
        service: Option<&str>,
        q: ProxyQuery,
        packet: Vec<u8>,
        server_addr: SocketAddr,
        client_addr: SocketAddr,
        recursion_available: bool,
        now: u64,
    ) -> (r: Forwarded)
        requires
            old(self).wf(),
            old(self)@.next_conn < u64::MAX,
            holds_question(packet@, q.name_strlen as int),
        ensures
            final(self).wf(),
            if old(self)@.pending.contains_key(q.id) {
                r is Duplicate && final(self)@ == old(self)@
            } else {
                match service {
                    None => {
                        &&& final(self)@ == old(self)@
                        &&& r matches Forwarded::Reply(bytes) && bytes@ == answer(
                            packet@,
                            q.name_strlen as int,
                            DNS_SERVFAIL,
                            None,
                            0,
                            recursion_available,
                        )
                    },
                    Some(service) => {
                        &&& final(self)@ == old(self)@.connected(service@, q.domain@).waiting(
                            q.id,
                            (PendingState {
                                packet: packet@,
                                name_strlen: q.name_strlen as int,
                                server_addr,
                                client_addr,
                                at: now,
                            }),
                        )
                        &&& r matches Forwarded::Send { conn, dial, domain, job }
                        &&& conn == final(self)@.conns[q.domain@].conn
                        &&& dial == !old(self)@.reusable(service@, q.domain@)
                        &&& domain@ == q.domain@
                        &&& job.id == q.id
                        &&& job.json@ == q.json@
                    },
                }
            },
    {
        if self.pending.contains(&q.id) {
            return Forwarded::Duplicate;
        }
        let owner: &str = match service {
            None => {
                return Forwarded::Reply(
                    format_resp_answers(
                        packet.as_slice(),
                        q.name_strlen,
                        DNS_SERVFAIL,
                        &None,
                        0,
                        recursion_available,
                    ),
                );
            },
            Some(s) => s,
        };
        let (conn, dial) = self.live_handle(owner, q.domain.as_str());
        let ghost before = self@;
        let ghost p = PendingState {
            packet: packet@,
            name_strlen: q.name_strlen as int,
            server_addr,
            client_addr,
            at: now,
        };
        self.pending.insert(
            q.id,
            ProxyPending { packet, name_strlen: q.name_strlen, server_addr, client_addr, at: now },
        );
        assert(self@.pending =~= before.waiting(q.id, p).pending);
        assert(self@.conns =~= before.conns);
        Forwarded::Send { conn, dial, domain: q.domain, job: ProxyJob { id: q.id, json: q.json } }
    }

    /// Answers the question of that number, if it waits, and lets it wait no more.
    fn complete(
        &mut self,
        id: u16,
        status: u8,
        answers: &Option<Vec<RespAnswer>>,
        recursion_available: bool,
    ) -> (r: Option<ProxyReply>)
        requires
            old(self).wf(),
        ensures
            final(self).wf(),
            final(self)@ == old(self)@.answered(id),
            opt_reply(r) == old(self)@.completion(
                id,
                status,
                opt_answers(*answers),
                recursion_available,
            ),
    {
        let ghost before = self@;
        let found = self.pending.remove(&id);
        assert(self@.pending =~= before.answered(id).pending);
        assert(self@.conns =~= before.conns);
        match found {
            None => None,
            Some(p) => {
                assert(before.pending[id] == p@);
                Some(
                    ProxyReply {
                        bytes: format_resp_answers(
                            p.packet.as_slice(),
                            p.name_strlen,
                            status,
                            answers,
                            0,
                            recursion_available,
                        ),
                        server_addr: p.server_addr,
                        client_addr: p.client_addr,
                    },
                )
            },
        }
    }

    /// Takes what came back from a connection, and gives the answer to deliver, if any. A question that
    /// could not be written fails. A reply answers the question of its number with its records, as a
    /// success whatever the reply's status, an address record with the address 0.0.0.0. What holds no
    /// reply is dropped, as is a reply that nothing waits for.
    pub fn on_event(&mut self, ev: ProxyEvent, recursion_available: bool) -> (r: Option<ProxyReply>)
        requires
            old(self).wf(),
        ensures
            final(self).wf(),
            final(self)@ == old(self)@.after_event(ev),
            opt_reply(r) == old(self)@.event_reply(ev, recursion_available),
    {
        match ev {
            ProxyEvent::WriteFailed(id) => self.complete(id, DNS_SERVFAIL, &None, recursion_available),
            ProxyEvent::Data(None) => None,
            ProxyEvent::Data(Some(msg)) => match parse_peer_response(msg) {
                None => None,
                Some(resp) => self.complete(
                    resp.id,
                    DNS_NO_ERROR,
                    &resp.answers,
                    recursion_available,
                ),
            },
        }
    }

    /// Drops the questions whose time has run out, and the connections that have closed.
    pub fn evict_expired(&mut self, now: u64)
        requires
            old(self).wf(),
        ensures
            final(self).wf(),
            final(self)@ == old(self)@.swept(now),
    {
        let ghost before = self@;
        let in_time = |_id: &u16, p: &ProxyPending| -> (b: bool)
            ensures
                b == fresh_at(p.at, now, PROXY_PENDING_TIMEOUT),
        {
            is_fresh(p.at, now, PROXY_PENDING_TIMEOUT)
        };
        let open = |_d: &String, h: &ProxyConnHandle| -> (b: bool)
            ensures
                b == !h.closed,
        {
            !h.closed
        };
        let ghost pending = self.pending@;
        let ghost conns = self.conns@;
        self.pending.retain(in_time);
        self.conns.retain(open);
        proof {
            let want = before.swept(now);
            assert forall|id: u16| #![auto] self@.pending.contains_key(id) == want.pending.contains_key(
                id,
            ) && (self@.pending.contains_key(id) ==> self@.pending[id] == want.pending[id]) by {
                assert(self@.pending.contains_key(id) == self.pending@.contains_key(id));
                assert(before.pending.contains_key(id) == pending.contains_key(id));
                if pending.contains_key(id) {
                    assert(before.pending[id] == pending[id]@);
                }
            }
            assert(self@.pending =~= want.pending);
            assert forall|d: Seq<char>| #![auto] self@.conns.contains_key(d) == want.conns.contains_key(
                d,
            ) && (self@.conns.contains_key(d) ==> self@.conns[d] == want.conns[d]) by {
                assert(self@.conns.contains_key(d) == self.conns@.contains_key(d));
                assert(before.conns.contains_key(d) == conns.contains_key(d));
                if conns.contains_key(d) {
                    assert(before.conns[d] == conns[d]@);
                }
            }
            assert(self@.conns =~= want.conns);
        }
    }
}

/// A question that was answered waits no more, and no other question is touched: each is answered at
/// most once.
pub proof fn law_answered_once(s: ProxyState, id: u16)
    ensures
        !s.answered(id).pending.contains_key(id),
        forall|other: u16|
            other != id ==> (#[trigger] s.answered(id).pending.contains_key(other)
                == s.pending.contains_key(other)) && (s.pending.contains_key(other) ==> s.answered(
                id,
            ).pending[other] == s.pending[other]),
        s.answered(id).answered(id) == s.answered(id),
        s.answered(id).conns == s.conns,
{
    assert(s.answered(id).answered(id).pending =~= s.answered(id).pending);
}

/// A question goes out on an open connection to the service that owns its domain now, never on one to
/// an earlier owner, and the connections of other domains stay as they are.
pub proof fn law_connection_is_the_owners(s: ProxyState, service: Seq<char>, domain: Seq<char>)
    ensures
        s.connected(service, domain).reusable(service, domain),
        s.connected(service, domain).connected(service, domain) == s.connected(service, domain),
        forall|d: Seq<char>|
            d != domain ==> (#[trigger] s.connected(service, domain).conns.contains_key(d)
                == s.conns.contains_key(d)) && (s.conns.contains_key(d) ==> s.connected(
                service,
                domain,
            ).conns[d] == s.conns[d]),
        s.connected(service, domain).pending == s.pending,
{
}

/// Once a connection has closed, the next question of its domain gets a connection of another number.
pub proof fn law_closed_connection_is_replaced(
    s: ProxyState,
    service: Seq<char>,
    domain: Seq<char>,
)
    requires
        s.wf(),
        s.conns.contains_key(domain),
    ensures
        ({
            let conn = s.conns[domain].conn;
            let after = s.closed(domain, conn);
            !after.reusable(service, domain) && after.connected(service, domain).conns[domain].conn
                != conn
        }),
{
}

/// A question waits for as long as its time lasts, the last instant of it too, and no longer.
pub proof fn law_waits_for_its_time(s: ProxyState, id: u16, p: PendingState, now: u64)
    ensures
        s.waiting(id, p).swept(now).pending.contains_key(id) <==> now <= p.at + PROXY_PENDING_TIMEOUT,
{
}

/// What a reply says of its status, its question and the like has no part in what is passed on.
pub proof fn law_peer_status_is_ignored(a: WireMsg, b: WireMsg)
    requires
        a.id == b.id,
        a.answer == b.answer,
    ensures
        acceptable(a) == acceptable(b),
        records_of(a) == records_of(b),
{
}

} // verus!
