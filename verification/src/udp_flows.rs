//! The UDP flows and the virtual connections that carry them.
//!
//! A flow is a client and the destination that it addressed: one client that addresses two destinations
//! has two flows. A flow has one virtual connection at a time. A connection that is closed takes no
//! datagram: its flow gets a new one with the next datagram, while the old one may still be writing
//! what waits on it. A connection stays known, by its number, until both its pumps have ended.

use vstd::prelude::*;

use crate::addr::SocketAddr;
use crate::proxy_resolve::NANOS_PER_SEC;
use crate::table::{Key, Table};
use crate::vconn::{OverlayRead, Pump, ReaderStep, Vconn, WriterStep};
#[allow(unused_imports)]
use crate::vconn::{datagrams, pieces, VconnState, WriterStepSpec};

verus! {

/// How long a connection may be idle, in nanoseconds, before it is given up.
pub const VCONN_IDLE_TIMEOUT: u64 = 300 * NANOS_PER_SEC;

/// How often idle connections are looked for, in nanoseconds.
pub const VCONN_POLL_INTERVAL: u64 = 30 * NANOS_PER_SEC;

/// A flow: the client, and the destination that it addressed.
#[derive(Clone, Copy, Debug, PartialEq, Eq, Structural, Hash)]
pub struct FlowKey {
    pub src: SocketAddr,
    pub dst: SocketAddr,
}

impl View for FlowKey {
    type V = FlowKey;

    open spec fn view(&self) -> FlowKey {
        *self
    }
}

impl Key for FlowKey {
    fn same(&self, other: &Self) -> (r: bool) {
        *self == *other
    }
}

/// What to do with a datagram of a flow.
#[derive(Clone, Copy, Debug, PartialEq, Eq, Structural)]
pub enum RouteAction {
    /// Hand it to the flow's connection.
    Deliver,
    /// Make a new connection for it.
    CreateNew,
}

/// The number of each flow's connection, and the connections by number.
pub struct UdpFlowsState {
    pub flows: Map<FlowKey, u64>,
    pub vconns: Map<u64, VconnState>,
}

/// A connection after the idle ones were looked for.
pub open spec fn swept_vconn(c: VconnState, idle: u64, now: u64) -> VconnState {
    if c.expired(idle, now) {
        VconnState { evicted: true, ..c }
    } else {
        c
    }
}

impl UdpFlowsState {
    /// Every flow has a connection of its own, which was not given up.
    pub open spec fn wf(self) -> bool {
        &&& forall|k: FlowKey| #[trigger]
            self.flows.contains_key(k) ==> self.vconns.contains_key(self.flows[k])
                && !self.vconns[self.flows[k]].evicted
        &&& forall|k: FlowKey, l: FlowKey|
            #![trigger self.flows.contains_key(k), self.flows.contains_key(l)]
            self.flows.contains_key(k) && self.flows.contains_key(l) && self.flows[k] == self.flows[l]
                ==> k == l
        &&& forall|id: u64| #[trigger] self.vconns.contains_key(id) ==> self.vconns[id].wf()
    }

    /// Whether every connection has a number below `total`.
    pub open spec fn below(self, total: u64) -> bool {
        forall|id: u64| #[trigger] self.vconns.contains_key(id) ==> id < total
    }

    /// Whether the flow has a connection that takes datagrams.
    pub open spec fn live(self, key: FlowKey) -> bool {
        self.flows.contains_key(key) && !self.vconns[self.flows[key]].closed
    }

    /// What to do with a datagram of the flow.
    pub open spec fn route(self, key: FlowKey) -> RouteAction {
        if self.live(key) {
            RouteAction::Deliver
        } else {
            RouteAction::CreateNew
        }
    }

    /// The state with one connection replaced.
    pub open spec fn with(self, id: u64, c: VconnState) -> UdpFlowsState {
        UdpFlowsState { vconns: self.vconns.insert(id, c), ..self }
    }

    /// The state after the flow's connection was given up, if it is closed.
    pub open spec fn routed(self, key: FlowKey) -> UdpFlowsState {
        if self.flows.contains_key(key) && !self.live(key) {
            let id = self.flows[key];
            UdpFlowsState {
                flows: self.flows.remove(key),
                vconns: self.vconns.insert(id, VconnState { evicted: true, ..self.vconns[id] }),
            }
        } else {
            self
        }
    }

    /// The state with a new connection, on which one datagram waits.
    pub open spec fn created(self, key: FlowKey, id: u64, first: Seq<u8>, now: u64) -> UdpFlowsState {
        UdpFlowsState {
            flows: self.flows.insert(key, id),
            vconns: self.vconns.insert(
                id,
                VconnState {
                    queue: seq![first],
                    last_use: now,
                    closed: false,
                    killed: false,
                    evicted: false,
                    writer_ended: false,
                    reader_ended: false,
                },
            ),
        }
    }

    /// The state after a datagram was handed to the flow's connection.
    pub open spec fn delivered(self, key: FlowKey, d: Seq<u8>) -> UdpFlowsState {
        let id = self.flows[key];
        self.with(id, self.vconns[id].delivered(d))
    }

    /// The state after the connections of these numbers were killed.
    pub open spec fn killed(self, ids: Seq<u64>) -> UdpFlowsState {
        UdpFlowsState {
            vconns: self.vconns.map_entries(
                |id: u64, c: VconnState|
                    if ids.contains(id) {
                        VconnState { killed: true, ..c }
                    } else {
                        c
                    },
            ),
            ..self
        }
    }

    /// The state without the connections that were given up and whose pumps have ended.
    pub open spec fn tidied(self) -> UdpFlowsState {
        UdpFlowsState {
            vconns: self.vconns.restrict(
                Set::new(
                    |id: u64|
                        self.vconns.contains_key(id) && !(self.vconns[id].evicted
                            && self.vconns[id].over()),
                ),
            ),
            ..self
        }
    }

    /// The state after the connections that are closed or idle were given up.
    pub open spec fn swept(self, idle: u64, now: u64) -> UdpFlowsState {
        UdpFlowsState {
            flows: self.flows.restrict(
                Set::new(
                    |k: FlowKey|
                        self.flows.contains_key(k) && !self.vconns[self.flows[k]].expired(idle, now),
                ),
            ),
            vconns: self.vconns.map_values(|c: VconnState| swept_vconn(c, idle, now)),
        }
    }
}

/// The flows and their connections.
pub struct UdpFlows {
    flows: Table<FlowKey, u64>,
    vconns: Table<u64, Vconn>,
}

impl View for UdpFlows {
    type V = UdpFlowsState;

    closed spec fn view(&self) -> UdpFlowsState {
        UdpFlowsState {
            flows: self.flows@,
            vconns: self.vconns@.map_values(|c: Vconn| c@),
        }
    }
}

impl UdpFlows {
    /// What holds of every such set.
    pub closed spec fn wf(&self) -> bool {
        &&& self.flows.wf()
        &&& self.vconns.wf()
        &&& forall|id: u64| #[trigger] self.vconns@.contains_key(id) ==> self.vconns@[id].wf()
        &&& self@.wf()
    }

    pub proof fn lemma_wf(&self)
        requires
            self.wf(),
        ensures
            self@.wf(),
    {
    }

    /// No flows.
    pub fn new() -> (r: Self)
        ensures
            r.wf(),
            r@ == (UdpFlowsState { flows: Map::empty(), vconns: Map::empty() }),
    {
        let r = UdpFlows { flows: Table::new(), vconns: Table::new() };
        assert(r@.vconns =~= Map::<u64, VconnState>::empty());
        r
    }

    /// The number of flows.
    pub fn len(&self) -> (r: usize)
        requires
            self.wf(),
        ensures
            r == self@.flows.dom().len(),
    {
        self.flows.len()
    }

    /// Whether the flow has a connection.
    pub fn contains(&self, key: FlowKey) -> (r: bool)
        requires
            self.wf(),
        ensures
            r == self@.flows.contains_key(key),
    {
        self.flows.contains(&key)
    }

    /// The connection of that number.
    pub fn vconn(&self, id: u64) -> (r: Option<&Vconn>)
        requires
            self.wf(),
        ensures
            match r {
                Some(c) => self@.vconns.contains_key(id) && c@ == self@.vconns[id],
                None => !self@.vconns.contains_key(id),
            },
    {
        self.vconns.get(&id)
    }

    /// Puts a connection in the place of the one of that number.
    fn put(&mut self, id: u64, c: Vconn)
        requires
            old(self).flows.wf(),
            old(self).vconns.wf(),
            forall|i: u64| #[trigger]
                old(self).vconns@.contains_key(i) ==> old(self).vconns@[i].wf(),
            c.wf(),
        ensures
            final(self).flows == old(self).flows,
            final(self).vconns.wf(),
            forall|i: u64| #[trigger]
                final(self).vconns@.contains_key(i) ==> final(self).vconns@[i].wf(),
            final(self)@ == old(self)@.with(id, c@),
    {
        self.vconns.insert(id, c);
        assert(self@.vconns =~= old(self)@.with(id, c@).vconns);
    }

    /// Decides what to do with a datagram of a flow. A connection that is closed is given up first.
    pub fn route_decision(&mut self, key: FlowKey) -> (r: RouteAction)
        requires
            old(self).wf(),
        ensures
            final(self).wf(),
            r == old(self)@.route(key),
            final(self)@ == old(self)@.routed(key),
    {
        let id: u64 = match self.flows.get(&key) {
            None => {
                return RouteAction::CreateNew;
            },
            Some(id) => *id,
        };
        assert(self@.vconns.contains_key(id));
        let ghost before = self@;
        let mut c: Vconn = self.vconns.remove(&id).unwrap();
        assert(c@ == before.vconns[id]);
        if !c.is_closed() {
            self.put(id, c);
            assert(self@.vconns =~= before.vconns);
            return RouteAction::Deliver;
        }
        let _ = self.flows.remove(&key);
        c.evict();
        self.put(id, c);
        assert(self@.vconns =~= before.routed(key).vconns);
        RouteAction::CreateNew
    }

    /// Hands a datagram to the flow's connection.
    pub fn deliver(&mut self, key: FlowKey, datagram: Vec<u8>)
        requires
            old(self).wf(),
            old(self)@.flows.contains_key(key),
        ensures
            final(self).wf(),
            final(self)@ == old(self)@.delivered(key, datagram@),
    {
        let ghost before = self@;
        let id: u64 = *self.flows.get(&key).unwrap();
        assert(self@.vconns.contains_key(id));
        let mut c: Vconn = self.vconns.remove(&id).unwrap();
        assert(c@ == before.vconns[id]);
        c.deliver(datagram);
        proof {
            c.lemma_wf();
        }
        self.put(id, c);
        assert(self@.vconns =~= before.delivered(key, datagram@).vconns);
    }

    /// Makes a new connection, of the number `id`, for a flow that has none.
    pub fn create_vconn(&mut self, key: FlowKey, id: u64, first: Vec<u8>, now: u64)
        requires
            old(self).wf(),
            !old(self)@.flows.contains_key(key),
            !old(self)@.vconns.contains_key(id),
        ensures
            final(self).wf(),
            final(self)@ == old(self)@.created(key, id, first@, now),
    {
        let ghost before = self@;
        self.flows.insert(key, id);
        self.put(id, Vconn::new(first, now));
        assert(self@.vconns =~= before.created(key, id, first@, now).vconns);
        assert(self@.flows == before.flows.insert(key, id));
        proof {
            let after = self@;
            assert forall|k: FlowKey, l: FlowKey|
                #![trigger after.flows.contains_key(k), after.flows.contains_key(l)]
                after.flows.contains_key(k) && after.flows.contains_key(l) && after.flows[k]
                    == after.flows[l] implies k == l by {
                if k != key {
                    assert(before.flows.contains_key(k));
                }
                if l != key {
                    assert(before.flows.contains_key(l));
                }
            }
        }
    }

    /// Gives up the connections that are closed, and those that have been idle for longer than `idle`.
    pub fn drop_expired(&mut self, idle: u64, now: u64)
        requires
            old(self).wf(),
        ensures
            final(self).wf(),
            final(self)@ == old(self)@.swept(idle, now),
    {
        let ghost before = self@;
        let ghost conns = self.vconns@;
        let ghost keys = self.flows@;
        let vconns = &self.vconns;
        let in_use = |_k: &FlowKey, id: &u64| -> (b: bool)
            ensures
                vconns@.contains_key(*id) ==> b == !vconns@[*id]@.expired(idle, now),
        {
            match vconns.get(id) {
                Some(c) => !c.is_expired(idle, now),
                None => false,
            }
        };
        self.flows.retain(in_use);
        let age = |c: Vconn| -> (r: Vconn)
            requires
                c.wf(),
            ensures
                r.wf(),
                r@ == swept_vconn(c@, idle, now),
        {
            let mut c = c;
            if c.is_expired(idle, now) {
                c.evict();
            }
            c
        };
        self.vconns.update_all(age);
        proof {
            let want = before.swept(idle, now);
            assert forall|k: FlowKey| #![auto] self@.flows.contains_key(k) == want.flows.contains_key(k)
                && (self@.flows.contains_key(k) ==> self@.flows[k] == want.flows[k]) by {
                if keys.contains_key(k) {
                    assert(before.flows.contains_key(k));
                    assert(conns.contains_key(keys[k]));
                    assert(before.vconns[keys[k]] == conns[keys[k]]@);
                }
            }
            assert(self@.flows =~= want.flows);
            assert forall|id: u64| #![auto] self@.vconns.contains_key(id) == want.vconns.contains_key(id)
                && (self@.vconns.contains_key(id) ==> self@.vconns[id] == want.vconns[id]) by {
                assert(self.vconns@.dom().contains(id) == conns.dom().contains(id));
                if conns.contains_key(id) {
                    assert(before.vconns[id] == conns[id]@);
                }
            }
            assert(self@.vconns =~= want.vconns);
            assert forall|id: u64| #[trigger] self.vconns@.contains_key(id) implies self.vconns@[id].wf() by {
                assert(self.vconns@.dom().contains(id) == conns.dom().contains(id));
            }
            assert forall|id: u64| #[trigger] self@.vconns.contains_key(id) implies self@.vconns[id].wf() by {
                assert(self.vconns@.contains_key(id));
                self.vconns@[id].lemma_wf();
            }
        }
    }

    /// Takes the connection of that number out, to be changed and put back.
    fn take(&mut self, id: u64) -> (r: Vconn)
        requires
            old(self).wf(),
            old(self)@.vconns.contains_key(id),
        ensures
            r.wf(),
            r@ == old(self)@.vconns[id],
            final(self).flows == old(self).flows,
            final(self).vconns.wf(),
            final(self).vconns@ == old(self).vconns@.remove(id),
    {
        self.vconns.remove(&id).unwrap()
    }

    /// Puts a connection that was taken out back, changed but given up no more than before.
    fn put_back(&mut self, id: u64, c: Vconn, Ghost(before): Ghost<UdpFlows>)
        requires
            before.wf(),
            before@.vconns.contains_key(id),
            old(self).flows == before.flows,
            old(self).vconns.wf(),
            old(self).vconns@ == before.vconns@.remove(id),
            c.wf(),
            c@.evicted == before@.vconns[id].evicted,
        ensures
            final(self).wf(),
            final(self)@ == before@.with(id, c@),
    {
        proof {
            c.lemma_wf();
        }
        self.put(id, c);
        assert(self@.vconns =~= before@.with(id, c@).vconns);
    }

    /// The writer's next step on a connection.
    pub fn writer_step(&mut self, id: u64, now: u64) -> (r: WriterStep)
        requires
            old(self).wf(),
            old(self)@.vconns.contains_key(id),
        ensures
            final(self).wf(),
            final(self)@ == old(self)@.with(id, old(self)@.vconns[id].writer_next(now).0),
            r@ == old(self)@.vconns[id].writer_next(now).1,
    {
        let mut c: Vconn = self.take(id);
        let r: WriterStep = c.writer_step(now);
        self.put_back(id, c, Ghost(*old(self)));
        r
    }

    /// Records what came of a write of a connection's writer. Says whether the writer goes on.
    pub fn wrote(&mut self, id: u64, written: bool) -> (go_on: bool)
        requires
            old(self).wf(),
            old(self)@.vconns.contains_key(id),
        ensures
            final(self).wf(),
            go_on == written,
            written ==> final(self)@ == old(self)@,
            !written ==> final(self)@ == old(self)@.with(
                id,
                old(self)@.vconns[id].pump_ended(Pump::Writer),
            ),
    {
        let mut c: Vconn = self.take(id);
        let r: bool = c.wrote(written);
        self.put_back(id, c, Ghost(*old(self)));
        assert(old(self)@.with(id, old(self)@.vconns[id]).vconns =~= old(self)@.vconns);
        r
    }

    /// The reader's step on a connection after a read.
    pub fn reader_step(&mut self, id: u64, read: OverlayRead, now: u64) -> (r: ReaderStep)
        requires
            old(self).wf(),
            old(self)@.vconns.contains_key(id),
        ensures
            final(self).wf(),
            match read {
                OverlayRead::Chunk(chunk) if old(self)@.vconns[id].reading() => {
                    &&& final(self)@ == old(self)@.with(
                        id,
                        (VconnState { last_use: now, ..old(self)@.vconns[id] }),
                    )
                    &&& r matches ReaderStep::Send(out) && datagrams(out@) == pieces(
                        chunk@,
                        crate::proxy::PROXY_BUF as int,
                    )
                },
                _ => r is Stop && final(self)@ == old(self)@,
            },
    {
        let mut c: Vconn = self.take(id);
        let r: ReaderStep = c.reader_step(read, now);
        self.put_back(id, c, Ghost(*old(self)));
        assert(old(self)@.with(id, old(self)@.vconns[id]).vconns =~= old(self)@.vconns);
        r
    }

    /// Records that a pump of a connection has ended. Says whether the overlay connection is to be closed
    /// now.
    pub fn end_pump(&mut self, id: u64, pump: Pump) -> (r: bool)
        requires
            old(self).wf(),
            old(self)@.vconns.contains_key(id),
        ensures
            final(self).wf(),
            final(self)@ == old(self)@.with(id, old(self)@.vconns[id].pump_ended(pump)),
            r == (!old(self)@.vconns[id].over() && final(self)@.vconns[id].over()),
    {
        let mut c: Vconn = self.take(id);
        let r: bool = c.end_pump(pump);
        self.put_back(id, c, Ghost(*old(self)));
        r
    }

    /// Records that the dial of a connection has failed.
    pub fn fail_dial(&mut self, id: u64)
        requires
            old(self).wf(),
            old(self)@.vconns.contains_key(id),
        ensures
            final(self).wf(),
            final(self)@ == old(self)@.with(id, old(self)@.vconns[id].dial_failed()),
    {
        let mut c: Vconn = self.take(id);
        c.fail_dial();
        self.put_back(id, c, Ghost(*old(self)));
    }

    /// Kills a connection.
    pub fn kill(&mut self, id: u64)
        requires
            old(self).wf(),
            old(self)@.vconns.contains_key(id),
        ensures
            final(self).wf(),
            final(self)@ == old(self)@.with(
                id,
                (VconnState { killed: true, ..old(self)@.vconns[id] }),
            ),
    {
        let mut c: Vconn = self.take(id);
        c.kill();
        self.put_back(id, c, Ghost(*old(self)));
    }

    /// Kills the connections of these numbers, where they are known.
    pub fn kill_all(&mut self, ids: &Vec<u64>)
        requires
            old(self).wf(),
        ensures
            final(self).wf(),
            final(self)@ == old(self)@.killed(ids@),
    {
        let ghost before = self@;
        let mut i: usize = 0;
        assert(before.killed(ids@.take(0)).vconns =~= before.vconns);
        while i < ids.len()
            invariant
                i <= ids@.len(),
                self.wf(),
                self@ == before.killed(ids@.take(i as int)),
            decreases ids@.len() - i,
        {
            let id: u64 = ids[i];
            proof {
                let now = ids@.take(i + 1);
                assert(now =~= ids@.take(i as int).push(id));
                assert forall|x: u64| now.contains(x) == (ids@.take(i as int).contains(x) || x == id) by {
                    if ids@.take(i as int).contains(x) {
                        let j = choose|j: int| 0 <= j < i && ids@.take(i as int)[j] == x;
                        assert(now[j] == x);
                    }
                    if x == id {
                        assert(now[i as int] == x);
                    }
                }
            }
            if self.vconn(id).is_some() {
                self.kill(id);
            }
            assert(self@.vconns =~= before.killed(ids@.take(i + 1)).vconns);
            i += 1;
        }
        assert(ids@.take(i as int) =~= ids@);
    }

    /// Forgets the connections that were given up and whose pumps have ended.
    pub fn tidy(&mut self)
        requires
            old(self).wf(),
        ensures
            final(self).wf(),
            final(self)@ == old(self)@.tidied(),
    {
        let ghost before = self@;
        let ghost conns = self.vconns@;
        let needed = |_id: &u64, c: &Vconn| -> (b: bool)
            ensures
                b == !(c@.evicted && c@.over()),
        {
            !c.is_spent()
        };
        self.vconns.retain(needed);
        proof {
            let want = before.tidied();
            assert forall|id: u64| #![auto] self@.vconns.contains_key(id) == want.vconns.contains_key(id)
                && (self@.vconns.contains_key(id) ==> self@.vconns[id] == want.vconns[id]) by {
                assert(self@.vconns.contains_key(id) == self.vconns@.contains_key(id));
                if conns.contains_key(id) {
                    assert(before.vconns[id] == conns[id]@);
                }
            }
            assert(self@.vconns =~= want.vconns);
        }
    }
}

/// Datagrams of one client to two destinations never meet on one connection.
pub proof fn law_flows_do_not_mix(s: UdpFlowsState, a: FlowKey, b: FlowKey, d: Seq<u8>)
    requires
        s.wf(),
        s.flows.contains_key(a),
        s.flows.contains_key(b),
        a != b,
    ensures
        s.delivered(a, d).vconns[s.flows[b]] == s.vconns[s.flows[b]],
{
}

/// A datagram that comes once the flow's connection is closed is not put on it: the flow gets a new
/// connection, and what waits on the old one stays for its writer.
pub proof fn law_closed_connection_is_left_to_drain(s: UdpFlowsState, key: FlowKey)
    requires
        s.wf(),
        s.flows.contains_key(key),
        s.vconns[s.flows[key]].closed,
    ensures
        s.route(key) == RouteAction::CreateNew,
        !s.routed(key).flows.contains_key(key),
        s.routed(key).vconns[s.flows[key]].queue == s.vconns[s.flows[key]].queue,
{
}

/// What is still in use survives the search for idle connections: a connection that is open and on which
/// something passed within the time allowed.
pub proof fn law_fresh_flow_survives(s: UdpFlowsState, key: FlowKey, idle: u64, now: u64)
    requires
        s.wf(),
        s.flows.contains_key(key),
    ensures
        s.swept(idle, now).flows.contains_key(key) <==> !s.vconns[s.flows[key]].closed && now
            <= s.vconns[s.flows[key]].last_use + idle,
{
}

/// A kill reaches the connections that it names, each of which then writes nothing more, and no other.
pub proof fn law_kill_reaches_what_it_names(s: UdpFlowsState, ids: Seq<u64>, id: u64, now: u64)
    requires
        s.vconns.contains_key(id),
    ensures
        ids.contains(id) ==> s.killed(ids).vconns[id].to_write(now) == Seq::<Seq<u8>>::empty(),
        !ids.contains(id) ==> s.killed(ids).vconns[id] == s.vconns[id],
{
}

} // verus!
