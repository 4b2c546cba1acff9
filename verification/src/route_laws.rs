//! What holds of the routes of a device across its operations, and between them and the table of
//! intercepts.

use vstd::prelude::*;

use crate::addr::{IpAddr, IpNet};
use crate::config::ServiceEvent;
use crate::dns::DnsState;
use crate::resolve::{
    distinct_nets, empty_table, Flow, InstalledState, Protocol, ResolverState,
};
use crate::resolve_laws::{
    installs, law_only_installed_services_match, lemma_install_keeps_installed, owned, unchanged,
};
use crate::routes::{allowed, deletes, law_plan_is_distinct, routable, RouteCall, RoutesState};

verus! {

/// The networks that are routed once a list of calls was carried out, if none was before.
pub open spec fn carried_out(calls: Seq<RouteCall>) -> Set<IpNet>
    decreases calls.len(),
{
    if calls.len() == 0 {
        Set::empty()
    } else {
        match calls.last() {
            RouteCall::Add(c) => carried_out(calls.drop_last()).insert(c),
            RouteCall::Delete(c) => carried_out(calls.drop_last()).remove(c),
        }
    }
}

/// What the system was asked for is what is referred to: carried out from the start on, the calls route
/// exactly the networks that an intercept refers to. Every change keeps this.
pub proof fn law_system_follows_the_references(s: RoutesState, cidr: IpNet)
    requires
        s.wf(),
        s.count(cidr) < usize::MAX,
        carried_out(s.calls) == s.counts.dom(),
    ensures
        carried_out(s.add(cidr).calls) == s.add(cidr).counts.dom(),
        carried_out(s.delete(cidr).calls) == s.delete(cidr).counts.dom(),
{
    let up = s.add(cidr);
    let down = s.delete(cidr);
    assert(s.calls.push(RouteCall::Add(cidr)).drop_last() =~= s.calls);
    assert(s.calls.push(RouteCall::Delete(cidr)).drop_last() =~= s.calls);
    assert(carried_out(up.calls) =~= up.counts.dom());
    assert(carried_out(down.calls) =~= down.counts.dom());
}

/// A record of calls, and an addition of each network of a list after it.
pub open spec fn adds(calls: Seq<RouteCall>, order: Seq<IpNet>) -> Seq<RouteCall> {
    calls + order.map_values(|c: IpNet| RouteCall::Add(c))
}

proof fn lemma_deletions(s: RoutesState, nets: Seq<IpNet>, n: nat) -> (gone: Seq<IpNet>)
    requires
        n <= nets.len(),
    ensures
        s.delete_all(nets, n).calls == deletes(s.calls, gone),
    decreases n,
{
    if n == 0 {
        let gone = Seq::<IpNet>::empty();
        assert(deletes(s.calls, gone) =~= s.calls);
        gone
    } else {
        let gone = lemma_deletions(s, nets, (n - 1) as nat);
        let last = nets[n - 1];
        assert(deletes(s.calls, gone.push(last)) =~= deletes(s.calls, gone).push(
            RouteCall::Delete(last),
        ));
        if s.delete_all(nets, n).calls == s.delete_all(nets, (n - 1) as nat).calls {
            gone
        } else {
            gone.push(last)
        }
    }
}

proof fn lemma_new_routes(s: RoutesState, nets: Seq<IpNet>, n: nat) -> (new: Seq<IpNet>)
    requires
        n <= nets.len(),
    ensures
        s.add_all(nets, n).calls == adds(s.calls, new),
    decreases n,
{
    if n == 0 {
        let new = Seq::<IpNet>::empty();
        assert(adds(s.calls, new) =~= s.calls);
        new
    } else {
        let new = lemma_new_routes(s, nets, (n - 1) as nat);
        let last = nets[n - 1];
        assert(adds(s.calls, new.push(last)) =~= adds(s.calls, new).push(RouteCall::Add(last)));
        if s.add_all(nets, n).calls == s.add_all(nets, (n - 1) as nat).calls {
            new
        } else {
            new.push(last)
        }
    }
}

/// A change of the table of intercepts has the system asked for every deletion before the first
/// addition.
pub proof fn law_removals_are_asked_before_additions(
    s: RoutesState,
    removed: Seq<IpNet>,
    added: Seq<IpNet>,
)
    ensures
        exists|gone: Seq<IpNet>, new: Seq<IpNet>|
            s.delete_all(removed, removed.len()).add_all(added, added.len()).calls
                == #[trigger] adds(deletes(s.calls, gone), new),
{
    let gone = lemma_deletions(s, removed, removed.len());
    let new = lemma_new_routes(s.delete_all(removed, removed.len()), added, added.len());
    assert(s.delete_all(removed, removed.len()).add_all(added, added.len()).calls == adds(
        deletes(s.calls, gone),
        new,
    ));
}

/// How often a network is among the first `n` of a list.
pub open spec fn times(nets: Seq<IpNet>, n: nat, cidr: IpNet) -> int
    decreases n,
{
    if n == 0 {
        0
    } else {
        times(nets, (n - 1) as nat, cidr) + if nets[n - 1] == cidr {
            1int
        } else {
            0
        }
    }
}

proof fn lemma_times(nets: Seq<IpNet>, n: nat, cidr: IpNet)
    ensures
        0 <= times(nets, n, cidr) <= n,
    decreases n,
{
    if n > 0 {
        lemma_times(nets, (n - 1) as nat, cidr);
    }
}

proof fn lemma_times_grow(nets: Seq<IpNet>, m: nat, n: nat, cidr: IpNet)
    requires
        m <= n,
    ensures
        times(nets, m, cidr) <= times(nets, n, cidr),
    decreases n,
{
    if m < n {
        lemma_times_grow(nets, m, (n - 1) as nat, cidr);
    }
}

/// Every reference to a network that may be routed is counted.
proof fn lemma_add_all(s: RoutesState, nets: Seq<IpNet>, n: nat, total: nat)
    requires
        s.wf(),
        n <= nets.len(),
        n <= total <= usize::MAX,
        s.room(total),
    ensures
        s.add_all(nets, n).wf(),
        s.add_all(nets, n).room((total - n) as nat),
        s.add_all(nets, n).on_link == s.on_link,
        s.add_all(nets, n).control_plane == s.control_plane,
        forall|c: IpNet|
            allowed(c, s.on_link, s.control_plane) ==> #[trigger] s.add_all(nets, n).count(c) == s.count(
                c,
            ) + times(nets, n, c),
    decreases n,
{
    if n > 0 {
        lemma_add_all(s, nets, (n - 1) as nat, total);
        let before = s.add_all(nets, (n - 1) as nat);
        let after = s.add_all(nets, n);
        let last = nets[n - 1];
        assert(before.count(last) + (total - n + 1) <= usize::MAX);
        assert forall|c: IpNet| allowed(c, s.on_link, s.control_plane) implies #[trigger] after.count(c)
            == s.count(c) + times(nets, n, c) by {
            assert(before.count(c) == s.count(c) + times(nets, (n - 1) as nat, c));
        }
    }
}

/// Every reference that was counted can be given up.
proof fn lemma_delete_all(s: RoutesState, nets: Seq<IpNet>, n: nat, c: IpNet)
    requires
        s.wf(),
        n <= nets.len(),
        allowed(c, s.on_link, s.control_plane),
        times(nets, n, c) <= s.count(c),
    ensures
        s.delete_all(nets, n).wf(),
        s.delete_all(nets, n).on_link == s.on_link,
        s.delete_all(nets, n).control_plane == s.control_plane,
        s.delete_all(nets, n).count(c) == s.count(c) - times(nets, n, c),
    decreases n,
{
    if n > 0 {
        lemma_times_grow(nets, (n - 1) as nat, n, c);
        lemma_delete_all(s, nets, (n - 1) as nat, c);
    }
}

proof fn lemma_delete_all_keeps(s: RoutesState, nets: Seq<IpNet>, n: nat, total: nat)
    requires
        s.wf(),
        n <= nets.len(),
    ensures
        s.delete_all(nets, n).wf(),
        s.delete_all(nets, n).on_link == s.on_link,
        s.delete_all(nets, n).control_plane == s.control_plane,
        s.room(total) ==> s.delete_all(nets, n).room(total),
    decreases n,
{
    if n > 0 {
        lemma_delete_all_keeps(s, nets, (n - 1) as nat, total);
    }
}

/// A list of networks that is referred to and given up again leaves every network counted as before.
pub proof fn law_references_balance(s: RoutesState, nets: Seq<IpNet>)
    requires
        s.wf(),
        nets.len() <= usize::MAX,
        s.room(nets.len()),
    ensures
        s.add_all(nets, nets.len()).delete_all(nets, nets.len()).counts == s.counts,
{
    let n = nets.len();
    let up = s.add_all(nets, n);
    let down = up.delete_all(nets, n);
    lemma_add_all(s, nets, n, n);
    lemma_delete_all_keeps(up, nets, n, 0);
    assert forall|c: IpNet| #[trigger]
        down.counts.contains_key(c) == s.counts.contains_key(c) && down.count(c) == s.count(c) by {
        if allowed(c, s.on_link, s.control_plane) {
            lemma_times(nets, n, c);
            assert(up.count(c) == s.count(c) + times(nets, n, c));
            lemma_delete_all(up, nets, n, c);
            assert(down.count(c) == s.count(c));
        }
    }
    assert(down.counts =~= s.counts);
}

/// How often the services that are installed have a network, all together.
pub open spec fn total(installed: Map<Seq<char>, InstalledState>, cidr: IpNet) -> int
    decreases installed.dom().len(),
{
    if installed.dom().finite() && installed.dom().len() > 0 {
        let name = installed.dom().choose();
        times(installed[name].routes, installed[name].routes.len(), cidr) + total(
            installed.remove(name),
            cidr,
        )
    } else {
        0
    }
}

/// The services can be counted in any order.
proof fn lemma_total_of(installed: Map<Seq<char>, InstalledState>, name: Seq<char>, cidr: IpNet)
    requires
        installed.dom().finite(),
        installed.contains_key(name),
    ensures
        total(installed, cidr) == times(
            installed[name].routes,
            installed[name].routes.len(),
            cidr,
        ) + total(installed.remove(name), cidr),
    decreases installed.dom().len(),
{
    let first = installed.dom().choose();
    assert(installed.dom().len() > 0) by {
        if installed.dom().len() == 0 {
            assert(installed.dom() =~= Set::empty());
        }
    }
    assert(installed.dom().contains(first));
    assert(installed.remove(first).dom() =~= installed.dom().remove(first));
    assert(installed.remove(name).dom() =~= installed.dom().remove(name));
    if first != name {
        lemma_total_of(installed.remove(first), name, cidr);
        lemma_total_of(installed.remove(name), first, cidr);
        assert(installed.remove(first).remove(name) =~= installed.remove(name).remove(first));
    }
}

proof fn lemma_total_is_not_negative(installed: Map<Seq<char>, InstalledState>, cidr: IpNet)
    ensures
        total(installed, cidr) >= 0,
    decreases installed.dom().len(),
{
    if installed.dom().finite() && installed.dom().len() > 0 {
        let name = installed.dom().choose();
        assert(installed.dom().contains(name));
        assert(installed.remove(name).dom() =~= installed.dom().remove(name));
        lemma_times(installed[name].routes, installed[name].routes.len(), cidr);
        lemma_total_is_not_negative(installed.remove(name), cidr);
    }
}

/// One change in the services takes out no more than the installed services have, and what they have then
/// is what they had, less what it took out and more what it put in.
proof fn lemma_total_step(s: ResolverState, ev: &ServiceEvent, cidr: IpNet)
    requires
        s.installed.dom().finite(),
    ensures
        s.apply(ev).0.installed.dom().finite(),
        0 <= times(s.apply(ev).1.removed, s.apply(ev).1.removed.len(), cidr) <= total(
            s.installed,
            cidr,
        ),
        0 <= times(s.apply(ev).1.added, s.apply(ev).1.added.len(), cidr),
        total(s.apply(ev).0.installed, cidr) == total(s.installed, cidr) - times(
            s.apply(ev).1.removed,
            s.apply(ev).1.removed.len(),
            cidr,
        ) + times(s.apply(ev).1.added, s.apply(ev).1.added.len(), cidr),
{
    let (after, delta) = s.apply(ev);
    let svc = match *ev {
        ServiceEvent::Added(svc) => svc,
        ServiceEvent::Changed(svc) => svc,
        ServiceEvent::Removed(svc) => svc,
    };
    let name = svc.name@;
    let cleared = s.installed.remove(name);
    assert(cleared.dom() =~= s.installed.dom().remove(name));
    if s.installed.contains_key(name) {
        lemma_total_of(s.installed, name, cidr);
    } else {
        assert(cleared =~= s.installed);
    }
    lemma_total_is_not_negative(cleared, cidr);
    lemma_total_is_not_negative(s.installed, cidr);
    let had = s.routes_of(name);
    lemma_times(had, had.len(), cidr);
    lemma_times(delta.removed, delta.removed.len(), cidr);
    lemma_times(delta.added, delta.added.len(), cidr);
    let replaced = !(ev is Removed) && installs(&svc) && !unchanged(s, &svc);
    if replaced {
        let c = svc.configs@[svc.intercept_index()];
        let cfg = c.intercept->Ok_0@;
        let now = InstalledState { raw: c.raw@, routes: crate::config::literal_nets(cfg.addresses) };
        let start = ResolverState { installed: cleared.insert(name, now), ..s.without(name) };
        lemma_install_keeps_installed(start, cfg, name, cfg.addresses.len());
        assert(after.installed == cleared.insert(name, now));
        assert(after.installed.remove(name) =~= cleared);
        assert(after.installed.dom() =~= cleared.dom().insert(name));
        lemma_total_of(after.installed, name, cidr);
    }
}

/// The table after a sequence of changes in the services.
pub open spec fn applied_all(s: ResolverState, events: Seq<ServiceEvent>) -> ResolverState
    decreases events.len(),
{
    if events.len() == 0 {
        s
    } else {
        applied_all(s, events.drop_last()).apply(&events.last()).0
    }
}

/// How often a sequence of changes in the services puts a network in.
pub open spec fn times_added(s: ResolverState, events: Seq<ServiceEvent>, cidr: IpNet) -> int
    decreases events.len(),
{
    if events.len() == 0 {
        0
    } else {
        let delta = applied_all(s, events.drop_last()).apply(&events.last()).1;
        times_added(s, events.drop_last(), cidr) + times(delta.added, delta.added.len(), cidr)
    }
}

/// How often a sequence of changes in the services takes a network out.
pub open spec fn times_removed(s: ResolverState, events: Seq<ServiceEvent>, cidr: IpNet) -> int
    decreases events.len(),
{
    if events.len() == 0 {
        0
    } else {
        let delta = applied_all(s, events.drop_last()).apply(&events.last()).1;
        times_removed(s, events.drop_last(), cidr) + times(delta.removed, delta.removed.len(), cidr)
    }
}

/// The routes of a table balance over any sequence of changes in the services, from the empty table on:
/// every network, whether it may be routed or not, was put in as much more often than it was taken out as
/// the services that are installed then have it. No change takes out a network more often than it was put
/// in before that change.
pub proof fn law_routes_balance_over_time(dns: DnsState, events: Seq<ServiceEvent>, cidr: IpNet)
    ensures
        ({
            let start = empty_table(dns);
            &&& times_added(start, events, cidr) - times_removed(start, events, cidr) == total(
                applied_all(start, events).installed,
                cidr,
            )
            &&& events.len() > 0 ==> times_removed(start, events, cidr) <= times_added(
                start,
                events.drop_last(),
                cidr,
            )
            &&& applied_all(start, events).installed.dom().finite()
        }),
    decreases events.len(),
{
    let start = empty_table(dns);
    if events.len() == 0 {
        assert(start.installed.dom() =~= Set::empty());
    } else {
        law_routes_balance_over_time(dns, events.drop_last(), cidr);
        lemma_total_step(applied_all(start, events.drop_last()), &events.last(), cidr);
    }
}

/// The references follow the services: where every network that may be routed is counted as often as the
/// installed services have it, it still is once a change in the services was applied to the table and
/// to the routes. So a network that several services have stays routed until the last of them gives it
/// up, and no longer.
pub proof fn law_references_follow_the_services(
    routes: RoutesState,
    s: ResolverState,
    ev: &ServiceEvent,
    cidr: IpNet,
)
    requires
        routes.wf(),
        s.installed.dom().finite(),
        allowed(cidr, routes.on_link, routes.control_plane),
        s.apply(ev).1.added.len() <= usize::MAX,
        routes.room(s.apply(ev).1.added.len()),
        routes.count(cidr) == total(s.installed, cidr),
    ensures
        s.apply(ev).0.installed.dom().finite(),
        ({
            let (after, delta) = s.apply(ev);
            routes.delete_all(delta.removed, delta.removed.len()).add_all(
                delta.added,
                delta.added.len(),
            ).count(cidr) == total(after.installed, cidr)
        }),
{
    let delta = s.apply(ev).1;
    lemma_total_step(s, ev, cidr);
    let middle = routes.delete_all(delta.removed, delta.removed.len());
    lemma_delete_all(routes, delta.removed, delta.removed.len(), cidr);
    lemma_delete_all_keeps(routes, delta.removed, delta.removed.len(), delta.added.len());
    lemma_add_all(middle, delta.added, delta.added.len(), delta.added.len());
    assert(middle.add_all(delta.added, delta.added.len()).count(cidr) == middle.count(cidr) + times(
        delta.added,
        delta.added.len(),
        cidr,
    ));
}

proof fn lemma_additions(s: RoutesState, nets: Seq<IpNet>, n: nat)
    requires
        s.wf(),
        s.counts == Map::<IpNet, usize>::empty(),
        n <= nets.len() <= usize::MAX,
    ensures
        ({
            let plan = distinct_nets(routable(nets.take(n as int), s.on_link, s.control_plane));
            let after = s.add_all(nets, n);
            &&& after.wf()
            &&& after.on_link == s.on_link
            &&& after.control_plane == s.control_plane
            &&& after.calls == adds(s.calls, plan)
            &&& forall|c: IpNet| #[trigger] after.counts.contains_key(c) <==> plan.contains(c)
            &&& forall|c: IpNet| #[trigger] after.count(c) <= n
        }),
    decreases n,
{
    let now = nets.take(n as int);
    let plan = distinct_nets(routable(now, s.on_link, s.control_plane));
    let after = s.add_all(nets, n);
    if n == 0 {
        assert(plan =~= Seq::<IpNet>::empty());
        assert(adds(s.calls, plan) =~= s.calls);
    } else {
        lemma_additions(s, nets, (n - 1) as nat);
        let last = nets[n - 1];
        let rest = nets.take(n - 1);
        let before = s.add_all(nets, (n - 1) as nat);
        let kept = routable(rest, s.on_link, s.control_plane);
        let had = distinct_nets(kept);
        assert(now.drop_last() =~= rest);
        assert(now.last() == last);
        assert(before.count(last) <= n - 1);
        if allowed(last, s.on_link, s.control_plane) {
            assert(kept.push(last).drop_last() =~= kept);
            assert(before.counts.contains_key(last) == had.contains(last));
            if !had.contains(last) {
                assert(plan == had.push(last));
                assert(adds(s.calls, plan) =~= before.calls.push(RouteCall::Add(last)));
                assert forall|c: IpNet| #[trigger] after.counts.contains_key(c) <==> plan.contains(
                    c,
                ) by {
                    assert(before.counts.contains_key(c) == had.contains(c));
                    if had.contains(c) {
                        let k = choose|k: int| 0 <= k < had.len() && had[k] == c;
                        assert(plan[k] == c);
                    }
                    assert(plan[had.len() as int] == last);
                }
            } else {
                assert forall|c: IpNet| #[trigger] after.counts.contains_key(c) <==> plan.contains(
                    c,
                ) by {
                    assert(before.counts.contains_key(c) == had.contains(c));
                }
            }
        } else {
            assert(after == before);
        }
        assert forall|c: IpNet| #[trigger] after.count(c) <= n by {
            assert(before.count(c) <= n - 1);
        }
    }
}

/// Networks that are referred to one after the other, where none was before, have the system asked for
/// exactly the routes that are planned for the list, in the order of the plan, and for nothing else,
/// whatever the system answers; as many are then routed as the plan has.
pub proof fn law_references_ask_for_the_plan(s: RoutesState, nets: Seq<IpNet>)
    requires
        s.wf(),
        s.counts == Map::<IpNet, usize>::empty(),
        nets.len() <= usize::MAX,
    ensures
        ({
            let plan = distinct_nets(routable(nets, s.on_link, s.control_plane));
            let after = s.add_all(nets, nets.len());
            &&& after.calls == adds(s.calls, plan)
            &&& after.counts.dom() == plan.to_set()
            &&& after.counts.dom().len() == plan.len()
        }),
{
    lemma_additions(s, nets, nets.len());
    assert(nets.take(nets.len() as int) =~= nets);
    let wanted = routable(nets, s.on_link, s.control_plane);
    let plan = distinct_nets(wanted);
    let after = s.add_all(nets, nets.len());
    assert(after.counts.dom() =~= plan.to_set());
    law_plan_is_distinct(wanted);
    plan.unique_seq_to_set();
}

proof fn lemma_install_keeps_registry(
    s: ResolverState,
    cfg: crate::config::ConfigState,
    service: Seq<char>,
    n: nat,
)
    requires
        s.dns.wf(),
        n <= cfg.addresses.len(),
    ensures
        s.install(cfg, service, n).dns.wf(),
    decreases n,
{
    if n > 0 {
        lemma_install_keeps_registry(s, cfg, service, (n - 1) as nat);
        s.install(cfg, service, (n - 1) as nat).dns.lemma_register_wf(cfg.addresses[n - 1], service);
    }
}

/// Whatever changes in the services led to a table, from one without services over a registry without
/// names on: its entries and claims are those of installed services, and its registry is well formed.
pub proof fn law_reached_tables_are_owned(dns: DnsState, events: Seq<ServiceEvent>)
    requires
        dns.wf(),
        dns.hosts.dom() == Set::<Seq<char>>::empty(),
        dns.domains.dom() == Set::<Seq<char>>::empty(),
    ensures
        owned(applied_all(empty_table(dns), events)),
        applied_all(empty_table(dns), events).dns.wf(),
    decreases events.len(),
{
    let start = empty_table(dns);
    if events.len() == 0 {
        assert forall|n: Seq<char>| !#[trigger] dns.hosts.contains_key(n) by {
            assert(!dns.hosts.dom().contains(n));
        }
        assert forall|d: Seq<char>| !#[trigger] dns.domains.contains_key(d) by {
            assert(!dns.domains.dom().contains(d));
        }
    } else {
        law_reached_tables_are_owned(dns, events.drop_last());
        let s = applied_all(start, events.drop_last());
        let ev = events.last();
        let any = Flow {
            dst_ip: IpAddr::V4(0),
            dst_port: 0,
            proto: Protocol::Tcp,
            src_ip: IpAddr::V4(0),
        };
        law_only_installed_services_match(s, &ev, any);
        let svc = match ev {
            ServiceEvent::Added(svc) => svc,
            ServiceEvent::Changed(svc) => svc,
            ServiceEvent::Removed(svc) => svc,
        };
        let name = svc.name@;
        s.dns.lemma_deregister_wf(name);
        if installs(&svc) {
            let c = svc.configs@[svc.intercept_index()];
            let cfg = c.intercept->Ok_0@;
            let now = InstalledState { raw: c.raw@, routes: crate::config::literal_nets(cfg.addresses) };
            let cleared = s.without(name);
            let installing = ResolverState {
                installed: cleared.installed.insert(name, now),
                ..cleared
            };
            lemma_install_keeps_registry(installing, cfg, name, cfg.addresses.len());
        }
    }
}

} // verus!
