//! What holds of the plan of routes, of the control plane that it spares, and of how a connection and an
//! answer end.

use vstd::arithmetic::power2::pow2;
use vstd::prelude::*;

use crate::addr::{ip_text, ipv6_text, IpAddr, IpNet};
use crate::routes::{
    additions, addresses_of, agreed, allowed, answers, ascending, before, bracketed, calls_of, deletes,
    host_of, hosts_of, opt_text, routable, subnet, url_host_text, ControllerHost, HostSpec, RouteCall,
    RoutesState,
};
use crate::splice::{
    after_overlay_write, after_read, after_socket_write, socket_read, Direction, Ended, PumpEnd, PumpStep,
    ReadOutcome, Splice, Verdict,
};
use crate::stack::{
    answering, bounded_shutdown, egress_goes_on, holds_text, ingress_goes_on, reply_result, seen,
    DeviceRead, Endpoints, InnerShutdown, PacketAddrs, ReplyWrite,
};
use crate::udp::{check_udp, send_dns_reply, ReplyOutcome, UdpInterceptError};

verus! {

/// A network may be routed just if it is an IPv4 network that does not lie in the device's own and that no
/// address of the control plane lies in.
pub proof fn law_what_may_be_routed(cidr: IpNet, on_link: IpNet, control_plane: Seq<IpAddr>)
    requires
        cidr.wf(),
        on_link.wf(),
        on_link is V4,
    ensures
        allowed(cidr, on_link, control_plane) <==> {
            &&& cidr is V4
            &&& exists|x: u32| #[trigger] cidr.covers(IpAddr::V4(x)) && !on_link.covers(IpAddr::V4(x))
            &&& forall|i: int| 0 <= i < control_plane.len() ==> !cidr.covers(#[trigger] control_plane[i])
        },
{
    if cidr is V4 {
        crate::addr_laws::law_network_lies_in_another(on_link, cidr);
        if !on_link.covers_net(cidr) {
            let x = choose|x: u32|
                #[trigger] cidr.covers(IpAddr::V4(x)) && !on_link.covers(IpAddr::V4(x));
            assert(cidr.covers(IpAddr::V4(x)) && !on_link.covers(IpAddr::V4(x)));
        }
    }
}

/// The subnet of a device has the addresses that begin with the same bits as the device's.
pub proof fn law_subnet_of_a_device(addr: u32, prefix: u8, x: u32)
    requires
        prefix <= 32,
    ensures
        subnet(addr, prefix).wf(),
        subnet(addr, prefix) is V4,
        subnet(addr, prefix).covers(IpAddr::V4(x)) <==> x as int / (pow2((32 - prefix) as nat) as int)
            == addr as int / (pow2((32 - prefix) as nat) as int),
        subnet(addr, prefix)->V4_prefix == prefix,
        subnet(addr, prefix)->V4_addr as int % (pow2((32 - prefix) as nat) as int) == 0,
{
    let bits = (32 - prefix) as nat;
    let m = pow2(bits) as int;
    vstd::arithmetic::power2::lemma_pow2_pos(bits);
    crate::dns::lemma_block_fits(addr, bits);
    let net = IpNet::V4 { addr, prefix };
    let first = net.first();
    vstd::arithmetic::div_mod::lemma_fundamental_div_mod(addr as int, m);
    vstd::arithmetic::div_mod::lemma_mod_bound(addr as int, m);
    assert(first == m * (addr as int / m));
    vstd::arithmetic::div_mod::lemma_fundamental_div_mod_converse(first, m, addr as int / m, 0);
    assert(first as u32 == first);
    crate::addr_laws::law_network_has_its_prefix(subnet(addr, prefix), IpAddr::V4(x));
}

/// The networks of a list that may be routed are those of its parts, one after the other.
pub proof fn law_routable_networks_of_a_list(
    a: Seq<IpNet>,
    x: IpNet,
    b: Seq<IpNet>,
    on_link: IpNet,
    control_plane: Seq<IpAddr>,
)
    ensures
        routable(a + b, on_link, control_plane) == routable(a, on_link, control_plane) + routable(
            b,
            on_link,
            control_plane,
        ),
        routable(seq![x], on_link, control_plane) == (if allowed(x, on_link, control_plane) {
            seq![x]
        } else {
            Seq::<IpNet>::empty()
        }),
    decreases b.len(),
{
    assert(seq![x].drop_last() =~= Seq::<IpNet>::empty());
    assert(routable(seq![x].drop_last(), on_link, control_plane) =~= Seq::<IpNet>::empty());
    let before_b = routable(a, on_link, control_plane);
    if b.len() == 0 {
        assert(a + b =~= a);
        assert(routable(b, on_link, control_plane) =~= Seq::<IpNet>::empty());
        assert(before_b + routable(b, on_link, control_plane) =~= before_b);
    } else {
        let rest = b.drop_last();
        law_routable_networks_of_a_list(a, x, rest, on_link, control_plane);
        assert((a + b).drop_last() =~= a + rest);
        assert((a + b).last() == b.last());
        assert(routable(a + rest, on_link, control_plane).push(b.last()) =~= before_b + routable(
            rest,
            on_link,
            control_plane,
        ).push(b.last()));
    }
}

/// A reference to a network that may be routed is counted, and one that goes is counted off; where the last
/// one goes the network is forgotten. The device and its control plane stay the same.
pub proof fn law_references_are_counted(s: RoutesState, cidr: IpNet)
    requires
        s.wf(),
        s.room(1),
        allowed(cidr, s.on_link, s.control_plane),
    ensures
        s.counts.contains_key(cidr) ==> s.count(cidr) == s.counts[cidr],
        !s.counts.contains_key(cidr) ==> s.count(cidr) == 0,
        s.add(cidr).count(cidr) == s.count(cidr) + 1,
        s.count(cidr) > 0 ==> s.delete(cidr).count(cidr) == s.count(cidr) - 1,
        s.count(cidr) == 0 ==> s.delete(cidr) == s,
        s.delete(cidr).counts.contains_key(cidr) <==> s.count(cidr) > 1,
        s.add(cidr).on_link == s.on_link && s.delete(cidr).on_link == s.on_link,
        s.add(cidr).control_plane == s.control_plane && s.delete(cidr).control_plane == s.control_plane,
{
}

/// Lists of references are counted, and counted off, one after the other.
pub proof fn law_references_in_turn(s: RoutesState, nets: Seq<IpNet>, n: nat)
    requires
        n < nets.len(),
    ensures
        s.add_all(nets, 0) == s,
        s.delete_all(nets, 0) == s,
        s.add_all(nets, n + 1) == s.add_all(nets, n).add(nets[n as int]),
        s.delete_all(nets, n + 1) == s.delete_all(nets, n).delete(nets[n as int]),
{
}

/// Of a plan those networks are kept that the system agreed to route, in their order.
pub proof fn law_agreed_networks(planned: Seq<IpNet>, outcomes: Seq<bool>, n: IpNet, ok: bool)
    requires
        outcomes.len() == planned.len(),
    ensures
        agreed(planned.push(n), outcomes.push(ok)) == (if ok {
            agreed(planned, outcomes).push(n)
        } else {
            agreed(planned, outcomes)
        }),
        agreed(Seq::<IpNet>::empty(), Seq::<bool>::empty()).len() == 0,
{
    assert(planned.push(n).drop_last() =~= planned);
    lemma_agreed_prefix(planned, outcomes, ok);
}

proof fn lemma_agreed_prefix(planned: Seq<IpNet>, outcomes: Seq<bool>, ok: bool)
    requires
        planned.len() <= outcomes.len(),
    ensures
        agreed(planned, outcomes.push(ok)) == agreed(planned, outcomes),
    decreases planned.len(),
{
    if planned.len() > 0 {
        lemma_agreed_prefix(planned.drop_last(), outcomes, ok);
        assert(outcomes.push(ok)[planned.len() - 1] == outcomes[planned.len() - 1]);
    }
}

/// What the system is asked: to route each network of a plan, or to take each of a list out, in order.
pub proof fn law_what_the_system_is_asked(
    planned: Seq<IpNet>,
    outcomes: Seq<bool>,
    calls: Seq<RouteCall>,
    asked: Seq<(RouteCall, bool)>,
    i: int,
)
    ensures
        additions(planned, outcomes).len() == planned.len(),
        0 <= i < planned.len() ==> additions(planned, outcomes)[i] == (
            RouteCall::Add(planned[i]),
            outcomes[i],
        ),
        deletes(calls, planned).len() == calls.len() + planned.len(),
        deletes(calls, planned).take(calls.len() as int) == calls,
        0 <= i < planned.len() ==> deletes(calls, planned)[calls.len() + i] == RouteCall::Delete(
            planned[i],
        ),
        calls_of(asked).len() == asked.len(),
        0 <= i < asked.len() ==> calls_of(asked)[i] == asked[i].0,
{
    assert(deletes(calls, planned).take(calls.len() as int) =~= calls);
}

/// The host of a controller: an address in brackets is that IPv6 address; else a text that writes an
/// address is that address, and any other is a name. Without a host there is nothing to do.
pub proof fn law_host_of_a_controller(h: Seq<char>, inner: Seq<char>)
    ensures
        host_of(None) is Unreadable,
        host_of(Some(seq!['['] + inner + seq![']'])) == (match ipv6_text(inner) {
            Some(a) => HostSpec::Address(IpAddr::V6(a)),
            None => match ip_text(seq!['['] + inner + seq![']']) {
                Some(ip) => HostSpec::Address(ip),
                None => HostSpec::Name(seq!['['] + inner + seq![']']),
            },
        }),
        !(h.len() >= 2 && h[0] == '[' && h[h.len() - 1] == ']') ==> host_of(Some(h)) == (match ip_text(h) {
            Some(ip) => HostSpec::Address(ip),
            None => HostSpec::Name(h),
        }),
        bracketed(seq!['['] + inner + seq![']']) == ipv6_text(inner),
{
    let t = seq!['['] + inner + seq![']'];
    assert(t.subrange(1, t.len() - 1) =~= inner);
}

/// Addresses are ordered: of two different ones exactly one comes before the other, IPv4 before IPv6 and
/// otherwise the lower number first.
pub proof fn law_order_of_addresses(a: IpAddr, b: IpAddr, x: u32, y: u32, v: u128, w: u128)
    ensures
        !before(a, a),
        a != b ==> (before(a, b) <==> !before(b, a)),
        before(IpAddr::V4(x), IpAddr::V6(v)),
        before(IpAddr::V4(x), IpAddr::V4(y)) <==> x < y,
        before(IpAddr::V6(v), IpAddr::V6(w)) <==> v < w,
{
}

/// An ascending list is determined by what is in it.
pub proof fn law_ascending_list_is_determined(s: Seq<IpAddr>, t: Seq<IpAddr>)
    requires
        ascending(s),
        ascending(t),
        forall|x: IpAddr| s.contains(x) <==> t.contains(x),
    ensures
        s == t,
    decreases s.len(),
{
    if s.len() == 0 {
        if t.len() > 0 {
            assert(t.contains(t[0]));
        }
        assert(s =~= t);
    } else {
        assert(s.contains(s.last()));
        assert(t.len() > 0) by {
            let k = choose|k: int| 0 <= k < t.len() && t[k] == s.last();
        }
        let p = s.drop_last();
        let q = t.drop_last();
        assert(s.last() == t.last()) by {
            let k = choose|k: int| 0 <= k < t.len() && t[k] == s.last();
            assert(t.contains(t.last()));
            let l = choose|l: int| 0 <= l < s.len() && s[l] == t.last();
            if k < t.len() - 1 {
                assert(before(t[k], t[t.len() - 1]));
                if l < s.len() - 1 {
                    assert(before(s[l], s[s.len() - 1]));
                }
            }
        }
        assert forall|x: IpAddr| p.contains(x) <==> q.contains(x) by {
            if p.contains(x) {
                let k = choose|k: int| 0 <= k < p.len() && p[k] == x;
                assert(s[k] == x && before(s[k], s[s.len() - 1]));
                assert(s.contains(x));
                let l = choose|l: int| 0 <= l < t.len() && t[l] == x;
                assert(q[l] == x);
            }
            if q.contains(x) {
                let k = choose|k: int| 0 <= k < q.len() && q[k] == x;
                assert(t[k] == x && before(t[k], t[t.len() - 1]));
                assert(t.contains(x));
                let l = choose|l: int| 0 <= l < s.len() && s[l] == x;
                assert(p[l] == x);
            }
        }
        assert forall|i: int, j: int| 0 <= i < j < p.len() implies before(
            #[trigger] p[i],
            #[trigger] p[j],
        ) by {
            assert(before(s[i], s[j]));
        }
        assert forall|i: int, j: int| 0 <= i < j < q.len() implies before(
            #[trigger] q[i],
            #[trigger] q[j],
        ) by {
            assert(before(t[i], t[j]));
        }
        law_ascending_list_is_determined(p, q);
        assert(s =~= p.push(s.last()));
        assert(t =~= q.push(t.last()));
    }
}

/// Whether an address is one of a controller: the address that its URL gives, or one that its name was
/// resolved to.
pub open spec fn is_of_controller(
    hosts: Seq<HostSpec>,
    resolved: Seq<Seq<IpAddr>>,
    i: int,
    ip: IpAddr,
) -> bool {
    match hosts[i] {
        HostSpec::Unreadable => false,
        HostSpec::Address(a) => a == ip,
        HostSpec::Name(_) => i < resolved.len() && resolved[i].contains(ip),
    }
}

/// The control plane has the addresses of the controllers, each that a URL gives or a name resolves to, and
/// no other.
pub proof fn law_control_plane_is_the_controllers(
    hosts: Seq<HostSpec>,
    resolved: Seq<Seq<IpAddr>>,
    n: nat,
    ip: IpAddr,
)
    requires
        n <= hosts.len(),
    ensures
        addresses_of(hosts, resolved, n).contains(ip) <==> exists|i: int|
            0 <= i < n && #[trigger] is_of_controller(hosts, resolved, i, ip),
    decreases n,
{
    if n > 0 {
        law_control_plane_is_the_controllers(hosts, resolved, (n - 1) as nat, ip);
        let rest = addresses_of(hosts, resolved, (n - 1) as nat);
        if addresses_of(hosts, resolved, n).contains(ip) {
            if rest.contains(ip) {
                let i = choose|i: int|
                    0 <= i < n - 1 && #[trigger] is_of_controller(hosts, resolved, i, ip);
                assert(is_of_controller(hosts, resolved, i, ip));
            } else {
                assert(is_of_controller(hosts, resolved, n - 1, ip));
            }
        }
        if exists|i: int| 0 <= i < n && #[trigger] is_of_controller(hosts, resolved, i, ip) {
            let i = choose|i: int| 0 <= i < n && #[trigger] is_of_controller(hosts, resolved, i, ip);
            if i < n - 1 {
                assert(rest.contains(ip));
            }
        }
    }
}

/// The hosts of a list of URLs are what the parser of URLs finds in each; the answers of a list of lists
/// are the lists.
pub proof fn law_hosts_of_a_list(
    urls: Seq<String>,
    resolved: Seq<Vec<IpAddr>>,
    host: &ControllerHost,
    i: int,
)
    ensures
        hosts_of(urls).len() == urls.len(),
        0 <= i < urls.len() ==> hosts_of(urls)[i] == host_of(url_host_text(urls[i]@)),
        answers(resolved).len() == resolved.len(),
        0 <= i < resolved.len() ==> answers(resolved)[i] == resolved[i]@,
        forall|s: Option<String>| #[trigger]
            opt_text(s) == (match s {
                Some(t) => Some(t@),
                None => None,
            }),
        match *host {
            ControllerHost::Unreadable => host@ is Unreadable,
            ControllerHost::Address(ip) => host@ == HostSpec::Address(ip),
            ControllerHost::Name(n) => host@ == HostSpec::Name(n@),
        },
{
}

/// How a direction goes on. A kill stops it whatever its source gave and whatever became of its write to
/// the socket, but never a write to the overlay. The end of its source stops it without an error, a failure
/// with one; what was read is written, and after a write it reads again.
pub proof fn law_how_a_direction_goes_on(
    killed: bool,
    read: ReadOutcome,
    written: bool,
    n: usize,
    r: PumpStep,
)
    ensures
        call_ensures(after_read, (killed, read), r) ==> {
            &&& r is Write <==> !killed && read is Data
            &&& r == (PumpStep::Stop { end: PumpEnd::Killed, ok: true }) <==> killed
            &&& r == (PumpStep::Stop { end: PumpEnd::Natural, ok: true }) <==> !killed && read is Eof
            &&& r == (PumpStep::Stop { end: PumpEnd::Natural, ok: false }) <==> !killed && read is Failed
        },
        call_ensures(after_overlay_write, (written,), r) ==> (if written {
            r is Read
        } else {
            r == (PumpStep::Stop { end: PumpEnd::Natural, ok: false })
        }),
        call_ensures(after_socket_write, (killed, written), r) ==> {
            &&& r is Read <==> !killed && written
            &&& r == (PumpStep::Stop { end: PumpEnd::Killed, ok: true }) <==> killed
            &&& r == (PumpStep::Stop { end: PumpEnd::Natural, ok: false }) <==> !killed && !written
        },
        forall|o: ReadOutcome| #[trigger]
            call_ensures(socket_read, (n,), o) ==> (o is Eof <==> n == 0) && (o is Data <==> n > 0),
{
}

/// The end of a direction is recorded as that direction's, and the other's stays as it is. The direction
/// half-closes its destination just if it ended by itself; the connection is closed just if the other
/// direction has ended before.
pub proof fn law_end_of_a_direction(s: Splice, e: Ended)
    ensures
        s.finished(Direction::SocketToOverlay, e).to_overlay == Some(e),
        s.finished(Direction::SocketToOverlay, e).to_socket == s.to_socket,
        s.finished(Direction::OverlayToSocket, e).to_socket == Some(e),
        s.finished(Direction::OverlayToSocket, e).to_overlay == s.to_overlay,
        s.closing(Direction::SocketToOverlay, e).half_close <==> e.end is Natural,
        s.closing(Direction::OverlayToSocket, e).half_close <==> e.end is Natural,
        s.closing(Direction::SocketToOverlay, e).full_close <==> s.to_socket is Some,
        s.closing(Direction::OverlayToSocket, e).full_close <==> s.to_overlay is Some,
        s.ended(Direction::SocketToOverlay) == s.to_overlay,
        s.ended(Direction::OverlayToSocket) == s.to_socket,
        Splice::other(Direction::SocketToOverlay) is OverlayToSocket,
        Splice::other(Direction::OverlayToSocket) is SocketToOverlay,
        s.done() <==> s.to_overlay is Some && s.to_socket is Some,
{
}

/// A connection is fine just if neither direction had an error; else it reports the error of the direction
/// to the overlay before that of the direction to the socket.
pub proof fn law_verdict_of_a_connection(s: Splice, r: Verdict)
    requires
        s.to_overlay is Some,
        s.to_socket is Some,
        call_ensures(Splice::verdict, (&s,), r),
    ensures
        r is Fine <==> s.to_overlay->0.ok && s.to_socket->0.ok,
        r == Verdict::Failed(Direction::SocketToOverlay) <==> !s.to_overlay->0.ok,
        r == Verdict::Failed(Direction::OverlayToSocket) <==> s.to_overlay->0.ok && !s.to_socket->0.ok,
{
}

/// When the traffic of a stack goes on. Reading stops at the end of the device and on its failure; writing
/// stops only on a failure that does not concern one answer alone; an answer that was dropped stops nothing,
/// and a half-close that is on its way counts as done. Intercepting begins just where the stack has UDP.
pub proof fn law_when_the_stack_goes_on(
    n: usize,
    write: ReplyWrite,
    outcome: ReplyOutcome,
    ok: bool,
    enabled: bool,
    r: bool,
)
    ensures
        call_ensures(ingress_goes_on, (DeviceRead::Bytes(n),), r) ==> (r <==> n > 0),
        call_ensures(ingress_goes_on, (DeviceRead::Failed,), r) ==> !r,
        call_ensures(egress_goes_on, (&write,), r) ==> match write {
            ReplyWrite::Written => r,
            ReplyWrite::Failed { invalid_data, message } => r <==> invalid_data || holds_text(
                message@,
                "PacketBuilder::write"@,
            ),
        },
        call_ensures(send_dns_reply, (outcome,), r) ==> (r <==> outcome is Queued || outcome is Full),
        call_ensures(bounded_shutdown, (InnerShutdown::Pending,), r) ==> r,
        call_ensures(bounded_shutdown, (InnerShutdown::Done { ok },), r) ==> r == ok,
        forall|told: Result<bool, &'static str>| #[trigger]
            call_ensures(reply_result, (outcome,), told) ==> match outcome {
                ReplyOutcome::Queued => told == Ok::<bool, &'static str>(true),
                ReplyOutcome::Full => told == Ok::<bool, &'static str>(false),
                ReplyOutcome::Closed => told is Err,
            },
        forall|begun: Result<(), UdpInterceptError>| #[trigger]
            call_ensures(check_udp, (enabled,), begun) ==> (begun is Ok <==> enabled) && (!enabled
                ==> begun == Err::<(), UdpInterceptError>(UdpInterceptError::NotEnabled)),
{
}

/// What a packet carries was bound where the packet goes and came from where the packet comes from; the
/// answer goes the other way.
pub proof fn law_ways_of_packets(p: PacketAddrs, e: Endpoints)
    ensures
        seen(p).dst == p.to,
        seen(p).src == p.from,
        answering(e).from == e.dst,
        answering(e).to == e.src,
{
}

/// A text holds another just if it is something, the other, and something.
pub proof fn law_text_in_a_text(a: Seq<char>, part: Seq<char>, b: Seq<char>, s: Seq<char>)
    ensures
        holds_text(a + part + b, part),
        holds_text(s, part) ==> exists|i: int|
            0 <= i <= s.len() - part.len() && s == s.take(i) + #[trigger] s.subrange(i, i + part.len())
                + s.skip(i + part.len()) && s.subrange(i, i + part.len()) == part,
{
    let t = a + part + b;
    let at = a.len() as int;
    assert(t.subrange(at, at + part.len()) =~= part);
    if holds_text(s, part) {
        let i = choose|i: int|
            0 <= i <= s.len() - part.len() && #[trigger] s.subrange(i, i + part.len()) == part;
        assert(s =~= s.take(i) + s.subrange(i, i + part.len()) + s.skip(i + part.len()));
    }
}

} // verus!
