//! Queries that were passed to the upstream servers and wait for a response.
//!
//! A query is sent to every server, as it came. The first response that carries its number goes back to
//! the client, as it came; later ones find nothing that waits.

use vstd::prelude::*;

use crate::addr::{IpAddr, SocketAddr};
#[allow(unused_imports)]
use crate::dns_server::be16;
#[allow(unused_imports)]
use crate::proxy_resolve::fresh_at;
use crate::proxy_resolve::{is_fresh, NANOS_PER_SEC};
use crate::table::Table;

verus! {

/// The size of the buffer that a response is received in.
pub const DNS_UPSTREAM_BUF: usize = 4096;

/// How long a query waits for its response, in nanoseconds.
pub const DNS_UPSTREAM_TIMEOUT: u64 = 5 * NANOS_PER_SEC;

/// A query that waits: the address that the response is to come from, the client that it goes to, and
/// when the query was passed on.
#[derive(Clone, Copy, Debug, PartialEq, Eq, Structural)]
pub struct PendingUpstream {
    pub server_addr: SocketAddr,
    pub client_addr: SocketAddr,
    pub at: u64,
}

/// The upstream servers, and the queries that wait by number.
pub struct UpstreamDns {
    servers: Vec<SocketAddr>,
    pending: Table<u16, PendingUpstream>,
}

/// The upstream servers, and the queries that wait by number.
pub struct UpstreamState {
    pub servers: Seq<SocketAddr>,
    pub pending: Map<u16, PendingUpstream>,
}

/// The number of a message.
pub open spec fn id_of(b: Seq<u8>) -> u16 {
    be16(b[0], b[1])
}

/// The number of a message.
fn message_id(b: &[u8]) -> (r: u16)
    requires
        b@.len() >= 2,
    ensures
        r == id_of(b@),
{
    b[0] as u16 * 256 + b[1] as u16
}

impl UpstreamState {
    /// The state after a query was passed to the servers, `accepted` saying which of them took it: it
    /// waits if any did.
    pub open spec fn forwarded(
        self,
        request: Seq<u8>,
        accepted: Seq<bool>,
        server_addr: SocketAddr,
        client_addr: SocketAddr,
        at: u64,
    ) -> UpstreamState {
        if !self.pending.contains_key(id_of(request)) && accepted.contains(true) {
            UpstreamState {
                pending: self.pending.insert(
                    id_of(request),
                    PendingUpstream { server_addr, client_addr, at },
                ),
                ..self
            }
        } else {
            self
        }
    }

    /// Where a response goes: the addresses that it is to come from and to go to, if a query of its
    /// number waits.
    pub open spec fn target(self, response: Seq<u8>) -> Option<(SocketAddr, SocketAddr)> {
        if response.len() >= 2 && self.pending.contains_key(id_of(response)) {
            let p = self.pending[id_of(response)];
            Some((p.server_addr, p.client_addr))
        } else {
            None
        }
    }

    /// The state after a response came.
    pub open spec fn responded(self, response: Seq<u8>) -> UpstreamState {
        if response.len() >= 2 {
            UpstreamState { pending: self.pending.remove(id_of(response)), ..self }
        } else {
            self
        }
    }

    /// The state without the queries whose time has run out.
    pub open spec fn swept(self, now: u64) -> UpstreamState {
        UpstreamState {
            pending: self.pending.restrict(
                Set::new(
                    |id: u16|
                        self.pending.contains_key(id) && fresh_at(
                            self.pending[id].at,
                            now,
                            DNS_UPSTREAM_TIMEOUT,
                        ),
                ),
            ),
            ..self
        }
    }
}

impl View for UpstreamDns {
    type V = UpstreamState;

    closed spec fn view(&self) -> UpstreamState {
        UpstreamState { servers: self.servers@, pending: self.pending@ }
    }
}

impl UpstreamDns {
    /// What holds of every such set.
    pub closed spec fn wf(&self) -> bool {
        self.pending.wf()
    }

    /// The servers, with nothing that waits.
    pub fn new(servers: Vec<SocketAddr>) -> (r: Self)
        ensures
            r.wf(),
            r@ == (UpstreamState { servers: servers@, pending: Map::empty() }),
    {
        UpstreamDns { servers, pending: Table::new() }
    }

    /// The upstream servers.
    pub fn servers(&self) -> (r: &Vec<SocketAddr>)
        ensures
            r@ == self@.servers,
    {
        &self.servers
    }

    /// The number of queries that wait.
    pub fn pending_len(&self) -> (r: usize)
        requires
            self.wf(),
        ensures
            r == self@.pending.dom().len(),
    {
        self.pending.len()
    }

    /// Whether the local socket is to be one of IPv6: just where some server has an IPv6 address.
    pub fn binds_v6(servers: &Vec<SocketAddr>) -> (r: bool)
        ensures
            r == exists|i: int| 0 <= i < servers@.len() && (#[trigger] servers@[i]).ip is V6,
    {
        let mut i: usize = 0;
        while i < servers.len()
            invariant
                i <= servers@.len(),
                forall|j: int| 0 <= j < i ==> !((#[trigger] servers@[j]).ip is V6),
            decreases servers@.len() - i,
        {
            if let IpAddr::V6(_) = servers[i].ip {
                assert(servers@[i as int].ip is V6);
                return true;
            }
            i += 1;
        }
        false
    }

    /// Whether a query is to be sent: one of its number may wait already.
    pub fn is_new(&self, request: &[u8]) -> (r: bool)
        requires
            self.wf(),
            request@.len() >= 2,
        ensures
            r == !self@.pending.contains_key(id_of(request@)),
    {
        !self.pending.contains(&message_id(request))
    }

    /// Records that a query was sent, `accepted` saying of each server whether it took it. Says whether
    /// a response may be waited for: some server took the query, now or when one of its number was sent
    /// before, in which case it was not to be sent again.
    pub fn forward(
        &mut self,
        request: &[u8],
        accepted: &Vec<bool>,
        server_addr: SocketAddr,
        client_addr: SocketAddr,
        now: u64,
    ) -> (r: bool)
        requires
            old(self).wf(),
            request@.len() >= 2,
        ensures
            final(self).wf(),
            final(self)@ == old(self)@.forwarded(
                request@,
                accepted@,
                server_addr,
                client_addr,
                now,
            ),
            r == final(self)@.pending.contains_key(id_of(request@)),
    {
        let id: u16 = message_id(request);
        if self.pending.contains(&id) {
            return true;
        }
        let mut any: bool = false;
        let mut i: usize = 0;
        while i < accepted.len()
            invariant
                i <= accepted@.len(),
                any == accepted@.take(i as int).contains(true),
            decreases accepted@.len() - i,
        {
            proof {
                let now = accepted@.take(i + 1);
                assert(now.drop_last() =~= accepted@.take(i as int));
                assert(now.last() == accepted@[i as int]);
                if accepted@[i as int] {
                    assert(now[i as int]);
                }
                if any {
                    let j = choose|j: int| 0 <= j < i && accepted@.take(i as int)[j];
                    assert(now[j]);
                }
                if now.contains(true) && !accepted@[i as int] {
                    let j = choose|j: int| 0 <= j < now.len() && now[j];
                    assert(accepted@.take(i as int)[j]);
                }
            }
            if accepted[i] {
                any = true;
            }
            i += 1;
        }
        assert(accepted@.take(i as int) =~= accepted@);
        if any {
            self.pending.insert(id, PendingUpstream { server_addr, client_addr, at: now });
        }
        any
    }

    /// Where a response goes: the addresses that it is to come from and to go to, if a query of its
    /// number waits, which then waits no more.
    pub fn match_response(&mut self, response: &[u8]) -> (r: Option<(SocketAddr, SocketAddr)>)
        requires
            old(self).wf(),
        ensures
            final(self).wf(),
            r == old(self)@.target(response@),
            final(self)@ == old(self)@.responded(response@),
    {
        if response.len() < 2 {
            return None;
        }
        let id: u16 = message_id(response);
        match self.pending.remove(&id) {
            Some(p) => Some((p.server_addr, p.client_addr)),
            None => None,
        }
    }

    /// Drops the queries whose time has run out.
    pub fn evict_expired(&mut self, now: u64)
        requires
            old(self).wf(),
        ensures
            final(self).wf(),
            final(self)@ == old(self)@.swept(now),
    {
        let ghost before = self@;
        let in_time = |_id: &u16, p: &PendingUpstream| -> (b: bool)
            ensures
                b == fresh_at(p.at, now, DNS_UPSTREAM_TIMEOUT),
        {
            is_fresh(p.at, now, DNS_UPSTREAM_TIMEOUT)
        };
        self.pending.retain(in_time);
        proof {
            let want = before.swept(now).pending;
            assert forall|id: u16| #![auto] self@.pending.contains_key(id) == want.contains_key(id) && (
            self@.pending.contains_key(id) ==> self@.pending[id] == want[id]) by {
                assert(self@.pending.contains_key(id) == self.pending@.contains_key(id));
            }
            assert(self@.pending =~= want);
        }
    }
}

/// The response to a query goes to the client that asked it, once.
pub proof fn law_response_returns_to_its_client(
    s: UpstreamState,
    request: Seq<u8>,
    response: Seq<u8>,
    accepted: Seq<bool>,
    server_addr: SocketAddr,
    client_addr: SocketAddr,
    at: u64,
)
    requires
        response.len() >= 2,
        id_of(request) == id_of(response),
        !s.pending.contains_key(id_of(request)),
        accepted.contains(true),
    ensures
        ({
            let sent = s.forwarded(request, accepted, server_addr, client_addr, at);
            sent.target(response) == Some((server_addr, client_addr)) && sent.responded(response).target(
                response,
            ) is None
        }),
{
}

/// A query whose number waits already changes nothing: the first client keeps its place.
pub proof fn law_repeated_query_changes_nothing(
    s: UpstreamState,
    request: Seq<u8>,
    accepted: Seq<bool>,
    server_addr: SocketAddr,
    client_addr: SocketAddr,
    at: u64,
)
    requires
        s.pending.contains_key(id_of(request)),
    ensures
        s.forwarded(request, accepted, server_addr, client_addr, at) == s,
{
}

/// A query waits for as long as its time lasts, the last instant of it too, and no longer.
pub proof fn law_query_waits_for_its_time(s: UpstreamState, id: u16, now: u64)
    requires
        s.pending.contains_key(id),
    ensures
        s.swept(now).pending.contains_key(id) <==> now <= s.pending[id].at + DNS_UPSTREAM_TIMEOUT,
{
}

} // verus!
