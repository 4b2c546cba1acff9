//! Which intercepted networks are routed to the device, and how long.
//!
//! A network is routed while at least one intercept refers to it. Never routed are IPv6 networks, what
//! the device's own subnet already covers, and a network that holds an address of the control plane:
//! routing that one would capture the traffic that keeps the overlay itself alive.

use vstd::prelude::*;

use crate::addr::{parse_ip, parse_ipv6, IpAddr, IpNet};
use crate::resolve::{lists_net, RouteDelta};
use crate::table::Table;
use crate::text::{chars_of, string_of};

verus! {

/// Whether a network may be routed to a device on the subnet `on_link`.
pub open spec fn allowed(cidr: IpNet, on_link: IpNet, control_plane: Seq<IpAddr>) -> bool {
    cidr is V4 && !on_link.covers_net(cidr) && forall|i: int|
        0 <= i < control_plane.len() ==> !cidr.covers(#[trigger] control_plane[i])
}

/// The subnet of the device at an address.
pub open spec fn subnet(utun_addr: u32, utun_prefix: u8) -> IpNet {
    IpNet::V4 {
        addr: (IpNet::V4 { addr: utun_addr, prefix: utun_prefix }).first() as u32,
        prefix: utun_prefix,
    }
}

/// Whether the network holds an address of the control plane.
fn covers_control_plane(cidr: IpNet, control_plane: &Vec<IpAddr>) -> (r: bool)
    requires
        cidr.wf(),
    ensures
        r == exists|i: int| 0 <= i < control_plane@.len() && cidr.covers(#[trigger] control_plane@[i]),
{
    let mut i: usize = 0;
    while i < control_plane.len()
        invariant
            i <= control_plane@.len(),
            cidr.wf(),
            forall|j: int| 0 <= j < i ==> !cidr.covers(#[trigger] control_plane@[j]),
        decreases control_plane@.len() - i,
    {
        if cidr.contains(&control_plane[i]) {
            assert(cidr.covers(control_plane@[i as int]));
            return true;
        }
        i += 1;
    }
    false
}

/// Whether a network may be routed to a device on the subnet `on_link`.
pub fn route_allowed(cidr: IpNet, on_link: IpNet, control_plane: &Vec<IpAddr>) -> (r: bool)
    requires
        cidr.wf(),
        on_link.wf(),
    ensures
        r == allowed(cidr, on_link, control_plane@),
{
    match cidr {
        IpNet::V6 { .. } => false,
        IpNet::V4 { addr, prefix } => {
            let inside: bool = match on_link {
                IpNet::V4 { addr: base, prefix: bits } => IpNet::v4_contains_v4(
                    base,
                    bits,
                    addr,
                    prefix,
                ),
                IpNet::V6 { .. } => false,
            };
            !inside && !covers_control_plane(cidr, control_plane)
        },
    }
}

/// The networks of a list that may be routed, in its order.
pub open spec fn routable(s: Seq<IpNet>, on_link: IpNet, control_plane: Seq<IpAddr>) -> Seq<IpNet>
    decreases s.len(),
{
    if s.len() == 0 {
        Seq::empty()
    } else if allowed(s.last(), on_link, control_plane) {
        routable(s.drop_last(), on_link, control_plane).push(s.last())
    } else {
        routable(s.drop_last(), on_link, control_plane)
    }
}

/// The routes that a list of networks asks for, on a device at `utun_addr`: those that may be routed,
/// each once, in the order of their first appearance. None, if the prefix is not one.
pub fn plan_routes(
    intercept_cidrs: &Vec<IpNet>,
    utun_addr: u32,
    utun_prefix: u8,
    control_plane: &Vec<IpAddr>,
) -> (r: Vec<IpNet>)
    requires
        crate::config::nets_wf(intercept_cidrs@),
    ensures
        utun_prefix > 32 ==> r@.len() == 0,
        utun_prefix <= 32 ==> r@ == crate::resolve::distinct_nets(
            routable(intercept_cidrs@, subnet(utun_addr, utun_prefix), control_plane@),
        ),
        crate::config::nets_wf(r@),
{
    let mut planned: Vec<IpNet> = Vec::new();
    if utun_prefix > 32 {
        return planned;
    }
    let on_link = IpNet::V4 { addr: IpNet::v4_trunc(utun_addr, utun_prefix), prefix: utun_prefix };
    let mut i: usize = 0;
    while i < intercept_cidrs.len()
        invariant
            i <= intercept_cidrs@.len(),
            on_link.wf(),
            crate::config::nets_wf(intercept_cidrs@),
            crate::config::nets_wf(planned@),
            planned@ == crate::resolve::distinct_nets(
                routable(intercept_cidrs@.take(i as int), on_link, control_plane@),
            ),
        decreases intercept_cidrs@.len() - i,
    {
        let cidr: IpNet = intercept_cidrs[i];
        proof {
            let now = intercept_cidrs@.take(i + 1);
            assert(now.drop_last() =~= intercept_cidrs@.take(i as int));
            assert(now.last() == cidr);
            let kept = routable(now.drop_last(), on_link, control_plane@);
            assert(kept.push(cidr).drop_last() =~= kept);
        }
        if route_allowed(cidr, on_link, control_plane) && !lists_net(&planned, cidr) {
            planned.push(cidr);
        }
        i += 1;
    }
    assert(intercept_cidrs@.take(i as int) =~= intercept_cidrs@);
    planned
}

/// A change of the system's routing table.
pub enum RouteCall {
    Add(IpNet),
    Delete(IpNet),
}

/// The system's routing table, as far as it is changed here. Each user brings the one of their system:
/// that a call is kept in `asked` is what this module relies on.
pub trait RouteOps {
    /// What was asked of it so far, in order, and of each change whether it was carried out.
    closed spec fn asked(&self) -> Seq<(RouteCall, bool)> {
        arbitrary()
    }

    /// Routes a network to the device.
    fn add(&mut self, cidr: IpNet) -> (r: Result<(), String>)
        ensures
            final(self).asked() == old(self).asked().push((RouteCall::Add(cidr), r is Ok)),
    ;

    /// Takes the route of a network out.
    fn delete(&mut self, cidr: IpNet) -> (r: Result<(), String>)
        ensures
            final(self).asked() == old(self).asked().push((RouteCall::Delete(cidr), r is Ok)),
    ;
}

/// The changes that were asked for.
pub open spec fn calls_of(asked: Seq<(RouteCall, bool)>) -> Seq<RouteCall> {
    asked.map_values(|p: (RouteCall, bool)| p.0)
}

proof fn lemma_one_more_asked(asked: Seq<(RouteCall, bool)>, call: RouteCall, ok: bool)
    ensures
        calls_of(asked.push((call, ok))) == calls_of(asked).push(call),
{
    assert(calls_of(asked.push((call, ok))) =~= calls_of(asked).push(call));
}

/// Why a device's routes cannot be kept.
#[derive(Debug, PartialEq, Eq)]
pub enum RouteError {
    /// The prefix of the device's subnet is longer than an address.
    InvalidPrefix(u8),
}

/// The routes of a device: how many intercepts refer to each network, and what was asked of the system.
pub struct RoutesState {
    pub counts: Map<IpNet, usize>,
    pub on_link: IpNet,
    pub control_plane: Seq<IpAddr>,
    pub calls: Seq<RouteCall>,
}

impl RoutesState {
    /// The number of intercepts that refer to a network.
    pub open spec fn count(self, cidr: IpNet) -> int {
        if self.counts.contains_key(cidr) {
            self.counts[cidr] as int
        } else {
            0
        }
    }

    /// One more intercept refers to the network. The first one has it routed.
    pub open spec fn add(self, cidr: IpNet) -> RoutesState {
        if !allowed(cidr, self.on_link, self.control_plane) {
            self
        } else {
            RoutesState {
                counts: self.counts.insert(cidr, (self.count(cidr) + 1) as usize),
                calls: if self.count(cidr) == 0 {
                    self.calls.push(RouteCall::Add(cidr))
                } else {
                    self.calls
                },
                ..self
            }
        }
    }

    /// One intercept less refers to the network. The last one has its route taken out.
    pub open spec fn delete(self, cidr: IpNet) -> RoutesState {
        if !allowed(cidr, self.on_link, self.control_plane) || !self.counts.contains_key(cidr) {
            self
        } else if self.counts[cidr] == 1 {
            RoutesState {
                counts: self.counts.remove(cidr),
                calls: self.calls.push(RouteCall::Delete(cidr)),
                ..self
            }
        } else {
            RoutesState { counts: self.counts.insert(cidr, (self.counts[cidr] - 1) as usize), ..self }
        }
    }

    /// The first `n` networks of a list are referred to once more.
    pub open spec fn add_all(self, s: Seq<IpNet>, n: nat) -> RoutesState
        decreases n,
    {
        if n == 0 {
            self
        } else {
            self.add_all(s, (n - 1) as nat).add(s[n - 1])
        }
    }

    /// The first `n` networks of a list are referred to once less.
    pub open spec fn delete_all(self, s: Seq<IpNet>, n: nat) -> RoutesState
        decreases n,
    {
        if n == 0 {
            self
        } else {
            self.delete_all(s, (n - 1) as nat).delete(s[n - 1])
        }
    }

    /// What holds of every state: the networks that are counted may be routed, and are referred to.
    pub open spec fn wf(self) -> bool {
        self.on_link.wf() && forall|c: IpNet| #[trigger]
            self.counts.contains_key(c) ==> self.counts[c] >= 1 && allowed(
                c,
                self.on_link,
                self.control_plane,
            )
    }

    /// No network is referred to so often that `n` more references could not be counted.
    pub open spec fn room(self, n: nat) -> bool {
        forall|c: IpNet| #[trigger] self.counts.contains_key(c) ==> self.counts[c] + n <= usize::MAX
    }
}

/// The routes of a device, counted by how many intercepts refer to each.
pub struct RouteLifecycle<O: RouteOps> {
    counts: Table<IpNet, usize>,
    on_link: IpNet,
    control_plane: Vec<IpAddr>,
    ops: O,
}

impl<O: RouteOps> View for RouteLifecycle<O> {
    type V = RoutesState;

    closed spec fn view(&self) -> RoutesState {
        RoutesState {
            counts: self.counts@,
            on_link: self.on_link,
            control_plane: self.control_plane@,
            calls: calls_of(self.ops.asked()),
        }
    }
}

impl<O: RouteOps> RouteLifecycle<O> {
    /// What holds of every value.
    pub closed spec fn wf(&self) -> bool {
        self.counts.wf() && self@.wf()
    }

    /// No routes yet, for a device at an address of a subnet.
    pub fn new(ops: O, utun_addr: u32, utun_prefix: u8, control_plane: Vec<IpAddr>) -> (r: Result<
        Self,
        RouteError,
    >)
        ensures
            utun_prefix > 32 ==> r == Err::<Self, _>(RouteError::InvalidPrefix(utun_prefix)),
            utun_prefix <= 32 ==> r is Ok,
            r matches Ok(lc) ==> lc.wf() && lc@ == (RoutesState {
                counts: Map::empty(),
                on_link: subnet(utun_addr, utun_prefix),
                control_plane: control_plane@,
                calls: calls_of(ops.asked()),
            }),
    {
        if utun_prefix > 32 {
            return Err(RouteError::InvalidPrefix(utun_prefix));
        }
        let on_link = IpNet::V4 {
            addr: IpNet::v4_trunc(utun_addr, utun_prefix),
            prefix: utun_prefix,
        };
        Ok(RouteLifecycle { counts: Table::new(), on_link, control_plane, ops })
    }

    /// One more intercept refers to the network. The reference counts even if the system fails to
    /// route it.
    pub fn add(&mut self, cidr: IpNet)
        requires
            old(self).wf(),
            cidr.wf(),
            old(self)@.count(cidr) < usize::MAX,
        ensures
            final(self).wf(),
            final(self)@ == old(self)@.add(cidr),
    {
        if !route_allowed(cidr, self.on_link, &self.control_plane) {
            return;
        }
        let count: usize = match self.counts.get(&cidr) {
            Some(n) => *n,
            None => 0,
        };
        self.counts.insert(cidr, count + 1);
        if count == 0 {
            let outcome: Result<(), String> = self.ops.add(cidr);
            proof {
                lemma_one_more_asked(old(self).ops.asked(), RouteCall::Add(cidr), outcome is Ok);
            }
        }
    }

    /// One intercept less refers to the network; nothing happens if none did.
    pub fn delete(&mut self, cidr: IpNet)
        requires
            old(self).wf(),
            cidr.wf(),
        ensures
            final(self).wf(),
            final(self)@ == old(self)@.delete(cidr),
    {
        if !route_allowed(cidr, self.on_link, &self.control_plane) {
            return;
        }
        let count: usize = match self.counts.get(&cidr) {
            Some(n) => *n,
            None => {
                return;
            },
        };
        if count == 1 {
            let _ = self.counts.remove(&cidr);
            let outcome: Result<(), String> = self.ops.delete(cidr);
            proof {
                lemma_one_more_asked(old(self).ops.asked(), RouteCall::Delete(cidr), outcome is Ok);
            }
        } else {
            self.counts.insert(cidr, count - 1);
        }
    }

    /// The number of networks that are routed.
    pub fn installed(&self) -> (r: usize)
        requires
            self.wf(),
        ensures
            r == self@.counts.dom().len(),
    {
        self.counts.len()
    }

    /// Takes every route out that is left, each once whatever its count.
    pub fn teardown(&mut self)
        requires
            old(self).wf(),
        ensures
            final(self).wf(),
            final(self)@.counts == Map::<IpNet, usize>::empty(),
            final(self)@.on_link == old(self)@.on_link,
            final(self)@.control_plane == old(self)@.control_plane,
            exists|order: Seq<IpNet>|
                order.no_duplicates() && order.to_set() == old(self)@.counts.dom()
                    && #[trigger] deletes(old(self)@.calls, order) == final(self)@.calls,
    {
        let ghost before = self@;
        let left: Vec<(IpNet, usize)> = self.counts.drain();
        let ghost order = left@.map_values(|p: (IpNet, usize)| p.0);
        let mut i: usize = 0;
        assert(order.take(0) =~= Seq::empty());
        assert(deletes(before.calls, order.take(0)) =~= before.calls);
        while i < left.len()
            invariant
                i <= left@.len(),
                order == left@.map_values(|p: (IpNet, usize)| p.0),
                self.counts.wf(),
                self.counts@ == Map::<IpNet, usize>::empty(),
                self.on_link == before.on_link,
                self.control_plane@ == before.control_plane,
                calls_of(self.ops.asked()) == deletes(before.calls, order.take(i as int)),
            decreases left@.len() - i,
        {
            let ghost was = self.ops.asked();
            let outcome: Result<(), String> = self.ops.delete(left[i].0);
            proof {
                lemma_one_more_asked(was, RouteCall::Delete(left@[i as int].0), outcome is Ok);
                assert(order.take(i + 1) =~= order.take(i as int).push(left@[i as int].0));
                assert(deletes(before.calls, order.take(i + 1)) =~= deletes(
                    before.calls,
                    order.take(i as int),
                ).push(RouteCall::Delete(left@[i as int].0)));
            }
            i += 1;
        }
        proof {
            assert(order.take(i as int) =~= order);
            assert(order.no_duplicates()) by {
                assert forall|a: int, b: int|
                    0 <= a < order.len() && 0 <= b < order.len() && a != b implies order[a]
                    != order[b] by {
                    assert(left@[a].0@ != left@[b].0@);
                }
            }
            assert(order.to_set() =~= before.counts.dom()) by {
                assert forall|c: IpNet| order.to_set().contains(c) == #[trigger] before.counts.contains_key(
                    c,
                ) by {
                    if before.counts.contains_key(c) {
                        let k = crate::table::slot_of(left@, c);
                        assert(crate::table::holds(left@, c));
                        assert(order[k] == c);
                    }
                    if order.contains(c) {
                        let k = choose|k: int| 0 <= k < order.len() && order[k] == c;
                        assert(left@[k].0@ == c);
                    }
                }
            }
        }
    }
}

/// A record of calls, and a deletion of each network of a list after it.
pub open spec fn deletes(calls: Seq<RouteCall>, order: Seq<IpNet>) -> Seq<RouteCall> {
    calls + order.map_values(|c: IpNet| RouteCall::Delete(c))
}

/// Something that a change of the table of intercepts is applied to.
pub trait RouteApplier {
    /// Whether the change can be applied.
    spec fn ready(&self, delta: &RouteDelta) -> bool;

    /// Applies the change: what it takes out first, then what it puts in.
    fn apply_delta(&mut self, delta: &RouteDelta)
        requires
            old(self).ready(delta),
    ;
}

impl<O: RouteOps> RouteApplier for RouteLifecycle<O> {
    open spec fn ready(&self, delta: &RouteDelta) -> bool {
        self.wf() && crate::config::nets_wf(delta.removed@) && crate::config::nets_wf(delta.added@)
            && self@.room(delta.added@.len())
    }

    fn apply_delta(&mut self, delta: &RouteDelta)
        ensures
            final(self).wf(),
            final(self)@ == old(self)@.delete_all(delta.removed@, delta.removed@.len()).add_all(
                delta.added@,
                delta.added@.len(),
            ),
    {
        let ghost start = self@;
        let mut i: usize = 0;
        while i < delta.removed.len()
            invariant
                i <= delta.removed@.len(),
                self.wf(),
                crate::config::nets_wf(delta.removed@),
                start.room(delta.added@.len()),
                self@.room(delta.added@.len()),
                self@ == start.delete_all(delta.removed@, i as nat),
            decreases delta.removed@.len() - i,
        {
            self.delete(delta.removed[i]);
            i += 1;
        }
        let ghost middle = self@;
        let mut j: usize = 0;
        while j < delta.added.len()
            invariant
                j <= delta.added@.len(),
                self.wf(),
                crate::config::nets_wf(delta.added@),
                self@.room((delta.added@.len() - j) as nat),
                self@ == middle.add_all(delta.added@, j as nat),
            decreases delta.added@.len() - j,
        {
            self.add(delta.added[j]);
            j += 1;
        }
    }
}

/// The networks of a list that the system agreed to route.
pub open spec fn agreed(planned: Seq<IpNet>, outcomes: Seq<bool>) -> Seq<IpNet>
    decreases planned.len(),
{
    if planned.len() == 0 {
        Seq::empty()
    } else if outcomes[planned.len() - 1] {
        agreed(planned.drop_last(), outcomes).push(planned.last())
    } else {
        agreed(planned.drop_last(), outcomes)
    }
}

/// The routes of a plan, as far as the system agreed to them.
pub struct InstalledRoutes<O: RouteOps> {
    ops: O,
    installed: Vec<IpNet>,
}

impl<O: RouteOps> View for InstalledRoutes<O> {
    type V = Seq<IpNet>;

    closed spec fn view(&self) -> Seq<IpNet> {
        self.installed@
    }
}

/// Keeps of a list of networks those that the system agreed to route, by what came of each.
pub fn keep_agreed(planned: &Vec<IpNet>, outcomes: &Vec<bool>) -> (r: Vec<IpNet>)
    requires
        outcomes@.len() == planned@.len(),
    ensures
        r@ == agreed(planned@, outcomes@),
{
    let mut kept: Vec<IpNet> = Vec::new();
    let mut i: usize = 0;
    while i < planned.len()
        invariant
            i <= planned@.len(),
            outcomes@.len() == planned@.len(),
            kept@ == agreed(planned@.take(i as int), outcomes@),
        decreases planned@.len() - i,
    {
        assert(planned@.take(i + 1).drop_last() =~= planned@.take(i as int));
        if outcomes[i] {
            kept.push(planned[i]);
        }
        i += 1;
    }
    assert(planned@.take(i as int) =~= planned@);
    kept
}

/// What was asked, after a list of networks was asked to be routed, with what came of each.
pub open spec fn additions(planned: Seq<IpNet>, outcomes: Seq<bool>) -> Seq<(RouteCall, bool)> {
    Seq::new(planned.len(), |i: int| (RouteCall::Add(planned[i]), outcomes[i]))
}

impl<O: RouteOps> InstalledRoutes<O> {
    /// What was asked of the system so far, and of each change whether it was carried out.
    pub closed spec fn asked(&self) -> Seq<(RouteCall, bool)> {
        self.ops.asked()
    }

    /// Asks the system to route every network of a plan, in its order, and keeps those that it agreed to.
    pub fn install(planned: &Vec<IpNet>, ops: O) -> (r: Self)
        ensures
            exists|outcomes: Seq<bool>|
                outcomes.len() == planned@.len() && r.asked() == ops.asked() + #[trigger] additions(
                    planned@,
                    outcomes,
                ) && r@ == agreed(planned@, outcomes),
    {
        let ghost start = ops.asked();
        let mut ops: O = ops;
        let mut outcomes: Vec<bool> = Vec::new();
        let mut i: usize = 0;
        assert(start + additions(planned@.take(0), outcomes@) =~= start);
        while i < planned.len()
            invariant
                i <= planned@.len(),
                outcomes@.len() == i,
                ops.asked() == start + additions(planned@.take(i as int), outcomes@),
            decreases planned@.len() - i,
        {
            let ghost was = outcomes@;
            let outcome: Result<(), String> = ops.add(planned[i]);
            outcomes.push(outcome.is_ok());
            proof {
                assert(additions(planned@.take(i + 1), outcomes@) =~= additions(
                    planned@.take(i as int),
                    was,
                ).push((RouteCall::Add(planned@[i as int]), outcome is Ok)));
                assert(ops.asked() =~= start + additions(planned@.take(i + 1), outcomes@));
            }
            i += 1;
        }
        assert(planned@.take(i as int) =~= planned@);
        let installed: Vec<IpNet> = keep_agreed(planned, &outcomes);
        InstalledRoutes { ops, installed }
    }

    /// The number of routes that the system agreed to.
    pub fn len(&self) -> (r: usize)
        ensures
            r == self@.len(),
    {
        self.installed.len()
    }

    /// Whether the system agreed to none.
    pub fn is_empty(&self) -> (r: bool)
        ensures
            r == (self@.len() == 0),
    {
        self.installed.len() == 0
    }

    /// Takes out the routes that the system agreed to, and no other.
    pub fn teardown(&mut self)
        ensures
            final(self)@.len() == 0,
            calls_of(final(self).asked()) == deletes(calls_of(old(self).asked()), old(self)@),
    {
        let ghost calls = calls_of(self.asked());
        let mut installed: Vec<IpNet> = Vec::new();
        std::mem::swap(&mut installed, &mut self.installed);
        let mut i: usize = 0;
        assert(deletes(calls, installed@.take(0)) =~= calls);
        while i < installed.len()
            invariant
                i <= installed@.len(),
                self.installed@.len() == 0,
                calls_of(self.ops.asked()) == deletes(calls, installed@.take(i as int)),
            decreases installed@.len() - i,
        {
            let ghost was = self.ops.asked();
            let outcome: Result<(), String> = self.ops.delete(installed[i]);
            proof {
                lemma_one_more_asked(was, RouteCall::Delete(installed@[i as int]), outcome is Ok);
                assert(installed@.take(i + 1) =~= installed@.take(i as int).push(
                    installed@[i as int],
                ));
                assert(deletes(calls, installed@.take(i + 1)) =~= deletes(
                    calls,
                    installed@.take(i as int),
                ).push(RouteCall::Delete(installed@[i as int])));
            }
            i += 1;
        }
        assert(installed@.take(i as int) =~= installed@);
    }
}

/// What the `url` crate, as `reqwest` exports it, finds to be the host of a text that it reads as a
/// URL; none if it does not read it, or if it has no host.
pub uninterp spec fn url_host_text(s: Seq<char>) -> Option<Seq<char>>;

/// A text, if there is one.
pub open spec fn opt_text(s: Option<String>) -> Option<Seq<char>> {
    match s {
        Some(t) => Some(t@),
        None => None,
    }
}

/// `reqwest::Url::parse` and `host_str` of what it gives, as a function of the text.
#[verifier::external_body]
fn url_host(url: &str) -> (r: Option<String>)
    ensures
        opt_text(r) == url_host_text(url@),
{
    reqwest::Url::parse(url).ok()?.host_str().map(str::to_owned)
}

/// What is to be done about the host of a controller's URL.
#[derive(Debug, PartialEq, Eq)]
pub enum ControllerHost {
    /// The URL does not read, or has no host: it is passed over.
    Unreadable,
    /// The host is an address.
    Address(IpAddr),
    /// The host is a name, for the system to resolve.
    Name(String),
}

/// What is to be done about the host of a controller's URL.
pub enum HostSpec {
    Unreadable,
    Address(IpAddr),
    Name(Seq<char>),
}

impl View for ControllerHost {
    type V = HostSpec;

    open spec fn view(&self) -> HostSpec {
        match self {
            ControllerHost::Unreadable => HostSpec::Unreadable,
            ControllerHost::Address(ip) => HostSpec::Address(*ip),
            ControllerHost::Name(n) => HostSpec::Name(n@),
        }
    }
}

/// The address that a host writes in brackets, as URLs write an IPv6 address.
pub open spec fn bracketed(h: Seq<char>) -> Option<u128> {
    if h.len() >= 2 && h[0] == '[' && h.last() == ']' {
        crate::addr::ipv6_text(h.subrange(1, h.len() - 1))
    } else {
        None
    }
}

/// What is to be done about a host that the parser of URLs found. A host that writes an address is that
/// address; an IPv6 address stands in brackets there.
pub open spec fn host_of(host: Option<Seq<char>>) -> HostSpec {
    match host {
        None => HostSpec::Unreadable,
        Some(h) => match bracketed(h) {
            Some(a) => HostSpec::Address(IpAddr::V6(a)),
            None => match crate::addr::ip_text(h) {
                Some(ip) => HostSpec::Address(ip),
                None => HostSpec::Name(h),
            },
        },
    }
}

/// The address that a host writes in brackets.
fn parse_bracketed(h: &str) -> (r: Option<u128>)
    ensures
        r == bracketed(h@),
{
    let chars = chars_of(h);
    let n: usize = chars.len();
    if n >= 2 && chars[0] == '[' && chars[n - 1] == ']' {
        parse_ipv6(string_of(&chars, 1, n - 1).as_str())
    } else {
        None
    }
}

/// What is to be done about a host that the parser of URLs found.
pub fn classify_host(host: Option<String>) -> (r: ControllerHost)
    ensures
        r@ == host_of(opt_text(host)),
{
    match host {
        None => ControllerHost::Unreadable,
        Some(h) => match parse_bracketed(h.as_str()) {
            Some(a) => ControllerHost::Address(IpAddr::V6(a)),
            None => match parse_ip(h.as_str()) {
                Some(ip) => ControllerHost::Address(ip),
                None => ControllerHost::Name(h),
            },
        },
    }
}

/// What is to be done about the host of a controller's URL.
pub fn controller_host(url: &str) -> (r: ControllerHost)
    ensures
        r@ == host_of(url_host_text(url@)),
{
    classify_host(url_host(url))
}

/// The order of addresses: IPv4 before IPv6, each by its number.
pub open spec fn before(a: IpAddr, b: IpAddr) -> bool {
    match (a, b) {
        (IpAddr::V4(x), IpAddr::V4(y)) => x < y,
        (IpAddr::V4(_), IpAddr::V6(_)) => true,
        (IpAddr::V6(_), IpAddr::V4(_)) => false,
        (IpAddr::V6(x), IpAddr::V6(y)) => x < y,
    }
}

/// Ascending, without repetition.
pub open spec fn ascending(s: Seq<IpAddr>) -> bool {
    forall|i: int, j: int| 0 <= i < j < s.len() ==> before(#[trigger] s[i], #[trigger] s[j])
}

fn is_before(a: IpAddr, b: IpAddr) -> (r: bool)
    ensures
        r == before(a, b),
{
    match (a, b) {
        (IpAddr::V4(x), IpAddr::V4(y)) => x < y,
        (IpAddr::V4(_), IpAddr::V6(_)) => true,
        (IpAddr::V6(_), IpAddr::V4(_)) => false,
        (IpAddr::V6(x), IpAddr::V6(y)) => x < y,
    }
}

/// Puts an address into an ascending list, unless it is there.
fn insert_addr(addrs: &mut Vec<IpAddr>, ip: IpAddr)
    requires
        ascending(old(addrs)@),
    ensures
        ascending(final(addrs)@),
        final(addrs)@.to_set() == old(addrs)@.to_set().insert(ip),
{
    let ghost was = addrs@;
    let mut i: usize = 0;
    while i < addrs.len() && is_before(addrs[i], ip)
        invariant
            i <= addrs@.len(),
            addrs@ == was,
            forall|j: int| 0 <= j < i ==> before(#[trigger] was[j], ip),
        decreases addrs@.len() - i,
    {
        i += 1;
    }
    if i < addrs.len() && addrs[i] == ip {
        assert(was[i as int] == ip);
        assert(was.to_set() =~= was.to_set().insert(ip));
        return;
    }
    assert(i < was.len() ==> before(ip, was[i as int]));
    addrs.insert(i, ip);
    proof {
        let now = addrs@;
        assert forall|a: int, b: int| 0 <= a < b < now.len() implies before(
            #[trigger] now[a],
            #[trigger] now[b],
        ) by {
            let a0 = if a < i { a } else { a - 1 };
            let b0 = if b < i { b } else { b - 1 };
            if a == i {
                assert(now[b] == was[b0]);
                assert(b0 == i || before(was[i as int], was[b0]));
            } else if b == i {
                assert(now[a] == was[a]);
            } else {
                assert(now[a] == was[a0] && now[b] == was[b0]);
            }
        }
        assert forall|x: IpAddr| now.to_set().contains(x) == was.to_set().insert(ip).contains(x) by {
            if now.contains(x) {
                let k = choose|k: int| 0 <= k < now.len() && now[k] == x;
                if k < i {
                    assert(was[k] == x);
                } else if k > i {
                    assert(was[k - 1] == x);
                }
            }
            if was.contains(x) {
                let k = choose|k: int| 0 <= k < was.len() && was[k] == x;
                if k < i {
                    assert(now[k] == x);
                } else {
                    assert(now[k + 1] == x);
                }
            }
            assert(now[i as int] == ip);
        }
        assert(now.to_set() =~= was.to_set().insert(ip));
    }
}

/// The addresses that the first `n` controllers have: the address that the URL gives, or what the
/// system resolved its name to.
pub open spec fn addresses_of(
    hosts: Seq<HostSpec>,
    resolved: Seq<Seq<IpAddr>>,
    n: nat,
) -> Set<IpAddr>
    decreases n,
{
    if n == 0 {
        Set::empty()
    } else {
        let rest = addresses_of(hosts, resolved, (n - 1) as nat);
        match hosts[n - 1] {
            HostSpec::Unreadable => rest,
            HostSpec::Address(ip) => rest.insert(ip),
            HostSpec::Name(_) => if n - 1 < resolved.len() {
                rest.union(resolved[n - 1].to_set())
            } else {
                rest
            },
        }
    }
}

/// What is to be done about each of a list of controllers' URLs.
pub open spec fn hosts_of(urls: Seq<String>) -> Seq<HostSpec> {
    urls.map_values(|u: String| host_of(url_host_text(u@)))
}

/// The lists of addresses of a list.
pub open spec fn answers(resolved: Seq<Vec<IpAddr>>) -> Seq<Seq<IpAddr>> {
    resolved.map_values(|v: Vec<IpAddr>| v@)
}

/// Puts every address of a list into an ascending list.
fn insert_all(addrs: &mut Vec<IpAddr>, more: &Vec<IpAddr>)
    requires
        ascending(old(addrs)@),
    ensures
        ascending(final(addrs)@),
        final(addrs)@.to_set() == old(addrs)@.to_set().union(more@.to_set()),
{
    let ghost start = addrs@.to_set();
    let mut i: usize = 0;
    assert(start.union(more@.take(0).to_set()) =~= start);
    while i < more.len()
        invariant
            i <= more@.len(),
            ascending(addrs@),
            addrs@.to_set() == start.union(more@.take(i as int).to_set()),
        decreases more@.len() - i,
    {
        insert_addr(addrs, more[i]);
        proof {
            let now = more@.take(i + 1);
            let was = more@.take(i as int);
            assert(now =~= was.push(more@[i as int]));
            assert forall|x: IpAddr| now.to_set().contains(x) == was.to_set().insert(
                more@[i as int],
            ).contains(x) by {
                if was.contains(x) {
                    let k = choose|k: int| 0 <= k < was.len() && was[k] == x;
                    assert(now[k] == x);
                }
                assert(now[i as int] == more@[i as int]);
            }
            assert(addrs@.to_set() =~= start.union(now.to_set()));
        }
        i += 1;
    }
    assert(more@.take(i as int) =~= more@);
}

/// The addresses of the control plane, ascending and each once: those of the controllers' URLs, and
/// for each URL with a name in it those that the system resolved the name to, which stand in
/// `resolved` at the URL's place.
pub fn control_plane_addrs(controller_urls: &Vec<String>, resolved: &Vec<Vec<IpAddr>>) -> (r: Vec<
    IpAddr,
>)
    ensures
        ascending(r@),
        r@.to_set() == addresses_of(
            hosts_of(controller_urls@),
            answers(resolved@),
            controller_urls@.len(),
        ),
{
    let mut addrs: Vec<IpAddr> = Vec::new();
    let mut i: usize = 0;
    assert(addrs@.to_set() =~= Set::<IpAddr>::empty());
    while i < controller_urls.len()
        invariant
            i <= controller_urls@.len(),
            ascending(addrs@),
            addrs@.to_set() == addresses_of(
                hosts_of(controller_urls@),
                answers(resolved@),
                i as nat,
            ),
        decreases controller_urls@.len() - i,
    {
        let host = controller_host(controller_urls[i].as_str());
        assert(host@ == hosts_of(controller_urls@)[i as int]);
        match host {
            ControllerHost::Unreadable => {},
            ControllerHost::Address(ip) => {
                insert_addr(&mut addrs, ip);
            },
            ControllerHost::Name(_) => {
                if i < resolved.len() {
                    insert_all(&mut addrs, &resolved[i]);
                }
            },
        }
        i += 1;
    }
    addrs
}

/// A network that holds an address of the control plane is never routed, neither planned nor counted.
pub proof fn law_control_plane_is_never_routed(s: RoutesState, cidr: IpNet, i: int)
    requires
        s.wf(),
        0 <= i < s.control_plane.len(),
        cidr.covers(s.control_plane[i]),
    ensures
        s.add(cidr) == s,
        s.delete(cidr) == s,
        !s.counts.contains_key(cidr),
        forall|nets: Seq<IpNet>| !#[trigger] routable(nets, s.on_link, s.control_plane).contains(cidr),
{
    assert forall|nets: Seq<IpNet>| !#[trigger] routable(nets, s.on_link, s.control_plane).contains(
        cidr,
    ) by {
        lemma_routable(nets, s.on_link, s.control_plane);
    }
}

proof fn lemma_routable(nets: Seq<IpNet>, on_link: IpNet, control_plane: Seq<IpAddr>)
    ensures
        forall|i: int|
            0 <= i < routable(nets, on_link, control_plane).len() ==> allowed(
                #[trigger] routable(nets, on_link, control_plane)[i],
                on_link,
                control_plane,
            ),
    decreases nets.len(),
{
    if nets.len() > 0 {
        let rest = nets.drop_last();
        lemma_routable(rest, on_link, control_plane);
        let all = routable(nets, on_link, control_plane);
        assert forall|i: int| 0 <= i < all.len() implies allowed(
            #[trigger] all[i],
            on_link,
            control_plane,
        ) by {
            let before = routable(rest, on_link, control_plane);
            if i < before.len() {
                assert(all[i] == before[i]);
            }
        }
    }
}

/// A network that is referred to and given up again is counted as before, and a network that may not be
/// routed is passed over on both ways.
pub proof fn law_delete_undoes_add(s: RoutesState, cidr: IpNet)
    requires
        s.wf(),
        s.count(cidr) < usize::MAX,
    ensures
        s.add(cidr).delete(cidr).counts == s.counts,
        s.add(cidr).wf(),
        s.delete(cidr).wf(),
{
    assert(s.add(cidr).delete(cidr).counts =~= s.counts);
}

/// The system is asked to route a network exactly when the first reference to it comes, and to give it
/// up exactly when the last one goes; a route that is referred to elsewhere stays.
pub proof fn law_first_in_last_out(s: RoutesState, cidr: IpNet)
    requires
        s.wf(),
        allowed(cidr, s.on_link, s.control_plane),
        s.count(cidr) < usize::MAX,
    ensures
        s.count(cidr) == 0 ==> s.add(cidr).calls == s.calls.push(RouteCall::Add(cidr)),
        s.count(cidr) > 0 ==> s.add(cidr).calls == s.calls,
        s.count(cidr) == 1 ==> s.delete(cidr).calls == s.calls.push(RouteCall::Delete(cidr))
            && !s.delete(cidr).counts.contains_key(cidr),
        s.count(cidr) != 1 ==> s.delete(cidr).calls == s.calls,
{
}

/// A network and its count do not change when another network is referred to or given up.
pub proof fn law_routes_are_independent(s: RoutesState, cidr: IpNet, other: IpNet)
    requires
        cidr != other,
    ensures
        s.add(cidr).count(other) == s.count(other),
        s.delete(cidr).count(other) == s.count(other),
{
}

/// What a plan has, it has once, and may be routed.
pub proof fn law_plan_is_distinct(nets: Seq<IpNet>)
    ensures
        crate::resolve::distinct_nets(nets).no_duplicates(),
        forall|c: IpNet| #[trigger]
            crate::resolve::distinct_nets(nets).contains(c) <==> nets.contains(c),
    decreases nets.len(),
{
    if nets.len() > 0 {
        let rest = nets.drop_last();
        law_plan_is_distinct(rest);
        let d = crate::resolve::distinct_nets(rest);
        let all = crate::resolve::distinct_nets(nets);
        assert forall|c: IpNet| #[trigger] all.contains(c) <==> nets.contains(c) by {
            if nets.contains(c) {
                let k = choose|k: int| 0 <= k < nets.len() && nets[k] == c;
                if k < rest.len() {
                    assert(rest[k] == c);
                    assert(d.contains(c));
                    let m = choose|m: int| 0 <= m < d.len() && d[m] == c;
                    assert(all[m] == c);
                } else if !d.contains(c) {
                    assert(all[d.len() as int] == c);
                }
            }
            if all.contains(c) {
                let m = choose|m: int| 0 <= m < all.len() && all[m] == c;
                if m < d.len() {
                    assert(d[m] == c);
                    assert(d.contains(c));
                    let k = choose|k: int| 0 <= k < rest.len() && rest[k] == c;
                    assert(nets[k] == c);
                } else {
                    assert(nets[nets.len() - 1] == c);
                }
            }
        }
    }
}

} // verus!
