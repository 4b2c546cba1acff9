//! The live flows of each service, so that those of a service that is withdrawn can be killed.
//!
//! A flow is registered when it is created, before its dial, and under its service, never under an
//! address. Its number is what its task is found by: the task ends its flow by it, and a kill names
//! the numbers of the tasks to cancel.

use vstd::prelude::*;

use crate::addr::SocketAddr;
use crate::resolve::Protocol;
use crate::table::Table;

verus! {

/// A flow that was registered.
#[derive(Clone, Copy, Debug, PartialEq, Eq, Structural)]
pub struct RegisteredFlow {
    pub id: u64,
    pub proto: Protocol,
    pub src: SocketAddr,
    pub dst: SocketAddr,
    /// Whether its task has not ended.
    pub live: bool,
}

/// The flows of a list whose tasks have not ended.
pub open spec fn living(s: Seq<RegisteredFlow>) -> Seq<RegisteredFlow>
    decreases s.len(),
{
    if s.len() == 0 {
        Seq::empty()
    } else if s.last().live {
        living(s.drop_last()).push(s.last())
    } else {
        living(s.drop_last())
    }
}

/// The numbers of the flows of a list.
pub open spec fn ids(s: Seq<RegisteredFlow>) -> Seq<u64> {
    s.map_values(|f: RegisteredFlow| f.id)
}

/// A list of flows after the task of the flow `id` has ended.
pub open spec fn ended(s: Seq<RegisteredFlow>, id: u64) -> Seq<RegisteredFlow> {
    s.map_values(
        |f: RegisteredFlow|
            if f.id == id {
                RegisteredFlow { live: false, ..f }
            } else {
                f
            },
    )
}

/// The registry: the flows of each service, and how many were ever registered.
pub struct FlowsState {
    pub flows: Map<Seq<char>, Seq<RegisteredFlow>>,
    pub registered_total: u64,
}

impl FlowsState {
    /// The flows registered under a service.
    pub open spec fn of(self, service: Seq<char>) -> Seq<RegisteredFlow> {
        if self.flows.contains_key(service) {
            self.flows[service]
        } else {
            Seq::empty()
        }
    }

    /// The registry after a flow of a service was registered: flows of the service whose tasks have ended
    /// are forgotten.
    pub open spec fn registered(
        self,
        service: Seq<char>,
        proto: Protocol,
        src: SocketAddr,
        dst: SocketAddr,
    ) -> FlowsState {
        FlowsState {
            flows: self.flows.insert(
                service,
                living(self.of(service)).push(
                    RegisteredFlow { id: self.registered_total, proto, src, dst, live: true },
                ),
            ),
            registered_total: (self.registered_total + 1) as u64,
        }
    }

    /// The numbers are below the count of registrations, and no two flows share one.
    pub open spec fn wf(self) -> bool {
        &&& forall|s: Seq<char>, i: int| #[trigger]
            self.flows.contains_key(s) && 0 <= i < self.flows[s].len() ==> (
            #[trigger] self.flows[s][i]).id < self.registered_total
        &&& forall|s: Seq<char>, t: Seq<char>, i: int, j: int|
            #![trigger self.flows[s][i], self.flows[t][j]]
            self.flows.contains_key(s) && self.flows.contains_key(t) && 0 <= i < self.flows[s].len()
                && 0 <= j < self.flows[t].len() && self.flows[s][i].id == self.flows[t][j].id ==> s == t
                && i == j
    }
}

/// The live flows of each service.
pub struct FlowRegistry {
    flows: Table<String, Vec<RegisteredFlow>>,
    registered_total: u64,
}

impl View for FlowRegistry {
    type V = FlowsState;

    closed spec fn view(&self) -> FlowsState {
        FlowsState {
            flows: self.flows@.map_values(|v: Vec<RegisteredFlow>| v@),
            registered_total: self.registered_total,
        }
    }
}

proof fn lemma_living(s: Seq<RegisteredFlow>)
    ensures
        forall|i: int| 0 <= i < living(s).len() ==> (#[trigger] living(s)[i]).live,
        forall|i: int|
            0 <= i < living(s).len() ==> exists|k: int|
                0 <= k < s.len() && s[k] == #[trigger] living(s)[i],
        forall|i: int, j: int|
            0 <= i < j < living(s).len() ==> exists|k: int, l: int|
                0 <= k < l < s.len() && s[k] == #[trigger] living(s)[i] && s[l] == #[trigger] living(
                    s,
                )[j],
    decreases s.len(),
{
    if s.len() > 0 {
        let rest = s.drop_last();
        lemma_living(rest);
        let all = living(s);
        let some = living(rest);
        assert forall|i: int| 0 <= i < all.len() implies (#[trigger] all[i]).live by {
            if i < some.len() {
                assert(all[i] == some[i]);
            }
        }
        assert forall|i: int| 0 <= i < all.len() implies exists|k: int|
            0 <= k < s.len() && s[k] == #[trigger] all[i] by {
            if i < some.len() {
                let k = choose|k: int| 0 <= k < rest.len() && rest[k] == some[i];
                assert(s[k] == all[i]);
            } else {
                assert(s[s.len() - 1] == all[i]);
            }
        }
        assert forall|i: int, j: int| 0 <= i < j < all.len() implies exists|k: int, l: int|
            0 <= k < l < s.len() && s[k] == #[trigger] all[i] && s[l] == #[trigger] all[j] by {
            if j < some.len() {
                let (k, l) = choose|k: int, l: int|
                    0 <= k < l < rest.len() && rest[k] == some[i] && rest[l] == some[j];
                assert(s[k] == all[i] && s[l] == all[j]);
            } else {
                let k = choose|k: int| 0 <= k < rest.len() && rest[k] == some[i];
                assert(s[k] == all[i] && s[s.len() - 1] == all[j]);
            }
        }
    }
}

/// The flows of a list whose tasks have not ended.
fn keep_living(flows: &Vec<RegisteredFlow>) -> (r: Vec<RegisteredFlow>)
    ensures
        r@ == living(flows@),
{
    let mut out: Vec<RegisteredFlow> = Vec::new();
    let mut i: usize = 0;
    while i < flows.len()
        invariant
            i <= flows@.len(),
            out@ == living(flows@.take(i as int)),
        decreases flows@.len() - i,
    {
        proof {
            assert(flows@.take(i + 1).drop_last() =~= flows@.take(i as int));
        }
        if flows[i].live {
            out.push(flows[i]);
        }
        i += 1;
    }
    assert(flows@.take(i as int) =~= flows@);
    out
}

impl FlowRegistry {
    /// What holds of every registry.
    pub closed spec fn wf(&self) -> bool {
        self.flows.wf() && self@.wf()
    }

    /// No flows.
    pub fn new() -> (r: Self)
        ensures
            r.wf(),
            r@ == (FlowsState { flows: Map::empty(), registered_total: 0 }),
    {
        let r = FlowRegistry { flows: Table::new(), registered_total: 0 };
        assert(r@.flows =~= Map::<Seq<char>, Seq<RegisteredFlow>>::empty());
        r
    }

    /// Registers a flow of a service and gives its number. Flows of the service whose tasks have ended
    /// are forgotten.
    pub fn register(
        &mut self,
        service: &str,
        proto: Protocol,
        src: SocketAddr,
        dst: SocketAddr,
    ) -> (r: u64)
        requires
            old(self).wf(),
            old(self)@.registered_total < u64::MAX,
        ensures
            final(self).wf(),
            r == old(self)@.registered_total,
            final(self)@ == old(self)@.registered(service@, proto, src, dst),
    {
        let ghost before = self@;
        let key: String = service.to_owned();
        let id: u64 = self.registered_total;
        let bucket: Vec<RegisteredFlow> = match self.flows.remove(&key) {
            Some(b) => b,
            None => Vec::new(),
        };
        assert(bucket@ =~= before.of(service@));
        let mut kept: Vec<RegisteredFlow> = keep_living(&bucket);
        let ghost alive = kept@;
        kept.push(RegisteredFlow { id, proto, src, dst, live: true });
        self.flows.insert(key, kept);
        self.registered_total = id + 1;
        proof {
            let after = self@;
            assert(after.flows =~= before.flows.insert(service@, kept@));
            lemma_living(bucket@);
            let n = alive.len() as int;
            assert forall|s: Seq<char>, i: int| #[trigger]
                after.flows.contains_key(s) && 0 <= i < after.flows[s].len() implies (
            #[trigger] after.flows[s][i]).id < after.registered_total by {
                if s == service@ {
                    if i < n {
                        assert(alive[i] == kept@[i]);
                        let k = choose|k: int| 0 <= k < bucket@.len() && bucket@[k] == alive[i];
                        assert(before.flows[s][k].id < before.registered_total);
                    }
                } else {
                    assert(before.flows[s][i].id < before.registered_total);
                }
            }
            assert forall|s: Seq<char>, t: Seq<char>, i: int, j: int|
                #![trigger after.flows[s][i], after.flows[t][j]]
                after.flows.contains_key(s) && after.flows.contains_key(t) && 0 <= i
                    < after.flows[s].len() && 0 <= j < after.flows[t].len() && after.flows[s][i].id
                    == after.flows[t][j].id implies s == t && i == j by {
                lemma_registered(before, after, alive, service@, id, s, i);
                lemma_registered(before, after, alive, service@, id, t, j);
                if s == service@ && t == service@ && i < n && j < n && i != j {
                    let a = if i < j { i } else { j };
                    let b = if i < j { j } else { i };
                    let (k, l) = choose|k: int, l: int|
                        0 <= k < l < bucket@.len() && bucket@[k] == alive[a] && bucket@[l] == alive[b];
                    assert(before.flows[s][k].id != before.flows[s][l].id);
                }
            }
        }
        id
    }

    /// Records that the task of a flow of a service has ended.
    pub fn finish(&mut self, service: &str, id: u64)
        requires
            old(self).wf(),
        ensures
            final(self).wf(),
            final(self)@.registered_total == old(self)@.registered_total,
            final(self)@.flows == (if old(self)@.flows.contains_key(service@) {
                old(self)@.flows.insert(service@, ended(old(self)@.flows[service@], id))
            } else {
                old(self)@.flows
            }),
    {
        let ghost before = self@;
        let key: String = service.to_owned();
        match self.flows.remove(&key) {
            None => {
                assert(self@.flows =~= before.flows);
            },
            Some(bucket) => {
                let mut out: Vec<RegisteredFlow> = Vec::new();
                let mut i: usize = 0;
                while i < bucket.len()
                    invariant
                        i <= bucket@.len(),
                        out@ == ended(bucket@, id).take(i as int),
                    decreases bucket@.len() - i,
                {
                    let f: RegisteredFlow = bucket[i];
                    if f.id == id {
                        out.push(RegisteredFlow { live: false, ..f });
                    } else {
                        out.push(f);
                    }
                    i += 1;
                    assert(out@ =~= ended(bucket@, id).take(i as int));
                }
                assert(out@ =~= ended(bucket@, id));
                self.flows.insert(key, out);
                proof {
                    let after = self@;
                    assert(after.flows =~= before.flows.insert(service@, ended(bucket@, id)));
                    assert(before.flows[service@] == bucket@);
                    assert forall|s: Seq<char>, i: int| #[trigger]
                        after.flows.contains_key(s) && 0 <= i < after.flows[s].len() implies (
                    #[trigger] after.flows[s][i]).id == before.flows[s][i].id && before.flows.contains_key(
                        s,
                    ) && after.flows[s].len() == before.flows[s].len() by {}
                }
            },
        }
    }

    /// Takes every flow of a service out and gives the numbers of those whose tasks are to be
    /// cancelled: those that have not ended. None, if the service has no flows.
    pub fn kill_service(&mut self, service: &str) -> (r: Vec<u64>)
        requires
            old(self).wf(),
        ensures
            final(self).wf(),
            r@ == ids(living(old(self)@.of(service@))),
            final(self)@.flows == old(self)@.flows.remove(service@),
            final(self)@.registered_total == old(self)@.registered_total,
    {
        let ghost before = self@;
        let key: String = service.to_owned();
        let bucket: Vec<RegisteredFlow> = match self.flows.remove(&key) {
            Some(b) => b,
            None => Vec::new(),
        };
        assert(bucket@ =~= before.of(service@));
        let alive: Vec<RegisteredFlow> = keep_living(&bucket);
        let mut out: Vec<u64> = Vec::new();
        let mut i: usize = 0;
        while i < alive.len()
            invariant
                i <= alive@.len(),
                out@ == ids(alive@).take(i as int),
            decreases alive@.len() - i,
        {
            out.push(alive[i].id);
            i += 1;
            assert(out@ =~= ids(alive@).take(i as int));
        }
        assert(out@ =~= ids(alive@));
        assert(self@.flows =~= before.flows.remove(service@));
        out
    }

    /// The number of flows of a service whose tasks have not ended.
    pub fn live_flows(&self, service: &str) -> (r: usize)
        requires
            self.wf(),
        ensures
            r == living(self@.of(service@)).len(),
    {
        match self.flows.get(&service.to_owned()) {
            Some(bucket) => keep_living(bucket).len(),
            None => 0,
        }
    }

    /// How many flows were ever registered.
    pub fn registered_total(&self) -> (r: u64)
        ensures
            r == self@.registered_total,
    {
        self.registered_total
    }
}

proof fn lemma_registered(
    before: FlowsState,
    after: FlowsState,
    alive: Seq<RegisteredFlow>,
    service: Seq<char>,
    id: u64,
    s: Seq<char>,
    i: int,
)
    requires
        before.wf(),
        id == before.registered_total,
        alive == living(before.of(service)),
        after.flows.contains_key(s),
        0 <= i < after.flows[s].len(),
        after.flows.contains_key(service),
        forall|t: Seq<char>| t != service ==> after.flows.contains_key(t) == before.flows.contains_key(t),
        forall|t: Seq<char>| t != service && before.flows.contains_key(t) ==> after.flows[t]
            == before.flows[t],
        after.flows[service].len() == alive.len() + 1,
        forall|k: int| 0 <= k < alive.len() ==> after.flows[service][k] == alive[k],
        after.flows[service][alive.len() as int].id == id,
    ensures
        s == service && i == alive.len() ==> after.flows[s][i].id == id,
        !(s == service && i == alive.len()) ==> before.flows.contains_key(s) && exists|k: int|
            0 <= k < before.flows[s].len() && #[trigger] before.flows[s][k] == after.flows[s][i]
                && after.flows[s][i].id < id,
{
    if s == service && i < alive.len() {
        lemma_living(before.of(service));
        let k = choose|k: int| 0 <= k < before.of(service).len() && before.of(service)[k] == alive[i];
        assert(before.flows[s][k].id < before.registered_total);
    } else if s != service {
        assert(before.flows[s][i].id < before.registered_total);
    }
}

/// Killing the flows of a service leaves those of every other service as they were.
pub proof fn law_kill_touches_one_service(s: FlowsState, service: Seq<char>, other: Seq<char>)
    requires
        service != other,
    ensures
        (FlowsState { flows: s.flows.remove(service), ..s }).of(other) == s.of(other),
        (FlowsState { flows: s.flows.remove(service), ..s }).of(service).len() == 0,
{
}

/// A flow whose task has ended is neither counted as live nor killed; the others of its service still
/// are.
pub proof fn law_ended_flow_is_not_killed(flows: Seq<RegisteredFlow>, id: u64)
    ensures
        !ids(living(ended(flows, id))).contains(id),
        forall|f: RegisteredFlow| #[trigger]
            living(flows).contains(f) && f.id != id ==> living(ended(flows, id)).contains(f),
{
    lemma_living(ended(flows, id));
    let l = living(ended(flows, id));
    assert forall|i: int| 0 <= i < l.len() implies ids(l)[i] != id by {
        let k = choose|k: int| 0 <= k < flows.len() && ended(flows, id)[k] == l[i];
        assert(l[i].live);
    }
    assert forall|f: RegisteredFlow| #[trigger] living(flows).contains(f) && f.id != id implies living(
        ended(flows, id),
    ).contains(f) by {
        lemma_living(flows);
        let i = choose|i: int| 0 <= i < living(flows).len() && living(flows)[i] == f;
        let k = choose|k: int| 0 <= k < flows.len() && flows[k] == living(flows)[i];
        assert(ended(flows, id)[k] == f);
        lemma_living_has(ended(flows, id), k);
    }
}

proof fn lemma_living_has(s: Seq<RegisteredFlow>, k: int)
    requires
        0 <= k < s.len(),
        s[k].live,
    ensures
        living(s).contains(s[k]),
    decreases s.len(),
{
    let rest = s.drop_last();
    if k < rest.len() {
        lemma_living_has(rest, k);
        let i = choose|i: int| 0 <= i < living(rest).len() && living(rest)[i] == s[k];
        assert(living(s)[i] == s[k]);
    } else {
        assert(living(s)[living(rest).len() as int] == s[k]);
    }
}

} // verus!
