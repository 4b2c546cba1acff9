use std::cell::RefCell;
use std::rc::Rc;

use ziti_intercept::addr::{parse_ip, parse_ip_or_cidr, IpAddr, IpNet};
use ziti_intercept::config::{
    InterceptV1Config, PortRange, Service, ServiceConfig, ServiceEvent,
};
use ziti_intercept::resolve::{AppliedEvent, InterceptResolver, Protocol, RouteDelta};
use ziti_intercept::routes::{
    classify_host, control_plane_addrs, controller_host, keep_agreed, plan_routes, route_allowed,
    ControllerHost, InstalledRoutes, RouteApplier, RouteError, RouteLifecycle, RouteOps,
};

fn net(s: &str) -> IpNet {
    parse_ip_or_cidr(s).unwrap()
}

fn ip(s: &str) -> IpAddr {
    parse_ip(s).unwrap()
}

fn v4(s: &str) -> u32 {
    match ip(s) {
        IpAddr::V4(a) => a,
        IpAddr::V6(_) => unreachable!(),
    }
}

fn dotted(a: u32) -> String {
    format!("{}.{}.{}.{}", a >> 24, (a >> 16) & 255, (a >> 8) & 255, a & 255)
}

fn shown(cidr: IpNet) -> String {
    match cidr {
        IpNet::V4 { addr, prefix } => format!("{}/{prefix}", dotted(addr)),
        IpNet::V6 { addr, prefix } => format!("{addr:x}/{prefix}"),
    }
}

struct RecOps {
    calls: Rc<RefCell<Vec<String>>>,
    fails: bool,
}

impl RecOps {
    fn outcome(&self) -> Result<(), String> {
        if self.fails {
            Err("denied".to_string())
        } else {
            Ok(())
        }
    }
}

impl RouteOps for RecOps {
    fn add(&mut self, cidr: IpNet) -> Result<(), String> {
        self.calls.borrow_mut().push(format!("+{}", shown(cidr)));
        self.outcome()
    }

    fn delete(&mut self, cidr: IpNet) -> Result<(), String> {
        self.calls.borrow_mut().push(format!("-{}", shown(cidr)));
        self.outcome()
    }
}

fn rig(control_plane: Vec<IpAddr>) -> (RouteLifecycle<RecOps>, Rc<RefCell<Vec<String>>>) {
    let calls = Rc::new(RefCell::new(Vec::new()));
    let ops = RecOps { calls: Rc::clone(&calls), fails: false };
    let lc = match RouteLifecycle::new(ops, v4("10.99.0.1"), 24, control_plane) {
        Ok(lc) => lc,
        Err(e) => panic!("{e:?}"),
    };
    (lc, calls)
}

#[test]
fn plan_routes_keeps_a_cidr_outside_the_on_link_subnet() {
    let planned = plan_routes(&vec![net("192.168.5.0/24")], v4("10.99.0.1"), 24, &vec![]);
    assert_eq!(planned, vec![net("192.168.5.0/24")]);
}

#[test]
fn plan_routes_skips_a_cidr_inside_the_on_link_subnet() {
    let planned = plan_routes(&vec![net("10.99.0.128/25")], v4("10.99.0.1"), 24, &vec![]);
    assert!(planned.is_empty());
}

#[test]
fn plan_routes_skips_the_exact_on_link_subnet() {
    let planned = plan_routes(&vec![net("10.99.0.0/24")], v4("10.99.0.1"), 24, &vec![]);
    assert!(planned.is_empty());
}

#[test]
fn plan_routes_keeps_a_host_route_outside_on_link() {
    let planned = plan_routes(&vec![net("203.0.113.7/32")], v4("10.99.0.1"), 24, &vec![]);
    assert_eq!(planned, vec![net("203.0.113.7/32")]);
}

#[test]
fn plan_routes_skips_a_host_inside_on_link() {
    let planned = plan_routes(&vec![net("10.99.0.2/32")], v4("10.99.0.1"), 24, &vec![]);
    assert!(planned.is_empty());
}

#[test]
fn plan_routes_keeps_a_supernet_that_contains_the_on_link() {
    let planned = plan_routes(&vec![net("10.99.0.0/16")], v4("10.99.0.1"), 24, &vec![]);
    assert_eq!(planned, vec![net("10.99.0.0/16")]);
}

#[test]
fn plan_routes_dedups_identical_cidrs() {
    let planned = plan_routes(
        &vec![net("192.168.5.0/24"), net("192.168.5.0/24"), net("10.0.0.0/8")],
        v4("10.99.0.1"),
        24,
        &vec![],
    );
    assert_eq!(planned, vec![net("192.168.5.0/24"), net("10.0.0.0/8")]);
}

#[test]
fn plan_routes_defers_v6_cidrs() {
    let planned = plan_routes(
        &vec![net("2001:db8::/32"), net("192.168.5.0/24")],
        v4("10.99.0.1"),
        24,
        &vec![],
    );
    assert_eq!(planned, vec![net("192.168.5.0/24")]);
}

#[test]
fn plan_routes_with_a_slash32_utun_routes_everything_like_the_oracle() {
    let planned = plan_routes(
        &vec![net("192.168.5.0/24"), net("10.0.0.0/8")],
        v4("100.64.0.1"),
        32,
        &vec![],
    );
    assert_eq!(planned, vec![net("192.168.5.0/24"), net("10.0.0.0/8")]);
}

#[test]
fn plan_routes_refuses_a_cidr_that_covers_a_control_plane_addr() {
    let planned = plan_routes(
        &vec![net("10.0.0.0/8")],
        v4("10.99.0.1"),
        24,
        &vec![ip("10.0.0.5")],
    );
    assert!(planned.is_empty());
}

#[test]
fn plan_routes_refuses_when_control_plane_host_is_inside_the_cidr_but_keeps_a_sibling() {
    let planned = plan_routes(
        &vec![net("10.0.0.0/8"), net("192.168.5.0/24")],
        v4("10.99.0.1"),
        24,
        &vec![ip("10.0.0.5")],
    );
    assert_eq!(planned, vec![net("192.168.5.0/24")]);
}

#[test]
fn plan_routes_keeps_a_cidr_that_does_not_cover_the_control_plane() {
    let planned = plan_routes(
        &vec![net("192.168.5.0/24")],
        v4("10.99.0.1"),
        24,
        &vec![ip("203.0.113.9")],
    );
    assert_eq!(planned, vec![net("192.168.5.0/24")]);
}

#[test]
fn plan_routes_with_an_invalid_prefix_returns_empty_without_panicking() {
    let planned = plan_routes(&vec![net("192.168.5.0/24")], v4("10.99.0.1"), 33, &vec![]);
    assert!(planned.is_empty());
}

#[test]
fn install_with_an_empty_plan_installs_nothing_and_needs_no_privilege() {
    let calls = Rc::new(RefCell::new(Vec::new()));
    let ops = RecOps { calls: Rc::clone(&calls), fails: false };
    let mut routes = InstalledRoutes::install(&vec![], ops);
    assert!(routes.is_empty());
    assert_eq!(routes.len(), 0);
    routes.teardown();
    assert!(calls.borrow().is_empty());
}

#[test]
fn lifecycle_installs_on_first_ref_and_deletes_on_last() {
    let (mut lc, calls) = rig(vec![]);
    let shared = net("192.168.5.0/24");
    lc.add(shared);
    lc.add(shared);
    assert_eq!(*calls.borrow(), vec!["+192.168.5.0/24"]);
    assert_eq!(lc.installed(), 1);
    lc.delete(shared);
    assert_eq!(*calls.borrow(), vec!["+192.168.5.0/24"]);
    lc.delete(shared);
    assert_eq!(*calls.borrow(), vec!["+192.168.5.0/24", "-192.168.5.0/24"]);
    assert_eq!(lc.installed(), 0);
    lc.teardown();
    assert_eq!(*calls.borrow(), vec!["+192.168.5.0/24", "-192.168.5.0/24"]);
}

#[test]
fn lifecycle_delete_of_an_unknown_route_is_a_noop() {
    let (mut lc, calls) = rig(vec![]);
    lc.delete(net("192.168.5.0/24"));
    assert_eq!(lc.installed(), 0);
    lc.teardown();
    assert!(calls.borrow().is_empty());
}

#[test]
fn lifecycle_policy_filters_symmetrically_in_add_and_delete() {
    let (mut lc, calls) = rig(vec![ip("172.16.0.10")]);
    lc.add(net("10.99.0.0/25"));
    lc.add(net("2001:db8::/64"));
    lc.add(net("172.16.0.0/16"));
    assert!(calls.borrow().is_empty());
    assert_eq!(lc.installed(), 0);
    lc.delete(net("10.99.0.0/25"));
    lc.delete(net("2001:db8::/64"));
    lc.delete(net("172.16.0.0/16"));
    lc.teardown();
    assert!(calls.borrow().is_empty());
}

#[test]
fn apply_delta_removes_before_adding_mirroring_the_replace_churn() {
    let (mut lc, calls) = rig(vec![]);
    let kept = net("192.168.5.0/24");
    lc.add(kept);
    lc.apply_delta(&RouteDelta { removed: vec![kept], added: vec![kept] });
    assert_eq!(
        *calls.borrow(),
        vec!["+192.168.5.0/24", "-192.168.5.0/24", "+192.168.5.0/24"]
    );
    assert_eq!(lc.installed(), 1);
    lc.teardown();
    assert_eq!(
        *calls.borrow(),
        vec![
            "+192.168.5.0/24",
            "-192.168.5.0/24",
            "+192.168.5.0/24",
            "-192.168.5.0/24"
        ]
    );
}

#[test]
fn lifecycle_drop_deletes_the_remaining_installed_routes() {
    let (mut lc, calls) = rig(vec![]);
    lc.add(net("192.168.5.0/24"));
    lc.add(net("192.168.6.0/24"));
    lc.add(net("192.168.6.0/24"));
    lc.teardown();
    let recorded = calls.borrow();
    let deletes: Vec<_> = recorded.iter().filter(|c| c.starts_with('-')).collect();
    assert_eq!(deletes.len(), 2);
    assert!(recorded.contains(&"-192.168.5.0/24".to_string()));
    assert!(recorded.contains(&"-192.168.6.0/24".to_string()));
}

#[test]
fn control_plane_addrs_resolves_ip_literals_and_skips_garbage() {
    let addrs = control_plane_addrs(
        &vec![
            "https://10.10.0.1:1280".to_string(),
            "tls://192.168.9.9:443".to_string(),
            "not a url".to_string(),
        ],
        &vec![vec![], vec![], vec![]],
    );
    assert!(addrs.contains(&ip("10.10.0.1")));
    assert!(addrs.contains(&ip("192.168.9.9")));
    assert_eq!(addrs.len(), 2);
}

#[test]
fn control_plane_takes_the_resolved_addresses_of_names_ascending_and_once() {
    let addrs = control_plane_addrs(
        &vec![
            "https://ctrl.example.com:1280".to_string(),
            "https://[2001:db8::7]:443/edge".to_string(),
            "https://10.0.0.9".to_string(),
        ],
        &vec![vec![ip("10.0.0.9"), ip("10.0.0.3")], vec![], vec![]],
    );
    assert_eq!(addrs, vec![ip("10.0.0.3"), ip("10.0.0.9"), ip("2001:db8::7")]);
}

#[test]
fn controller_host_tells_addresses_names_and_garbage_apart() {
    assert_eq!(controller_host("https://10.10.0.1:1280"), ControllerHost::Address(ip("10.10.0.1")));
    assert_eq!(
        controller_host("https://ctrl.example.com/edge"),
        ControllerHost::Name("ctrl.example.com".to_string())
    );
    assert_eq!(
        controller_host("https://[2001:db8::7]:443/edge"),
        ControllerHost::Address(ip("2001:db8::7"))
    );
    assert_eq!(controller_host("not a url"), ControllerHost::Unreadable);
}

#[test]
fn lifecycle_refuses_a_prefix_longer_than_an_address() {
    let calls = Rc::new(RefCell::new(Vec::new()));
    let ops = RecOps { calls, fails: false };
    match RouteLifecycle::new(ops, v4("10.99.0.1"), 33, vec![]) {
        Ok(_) => panic!("a prefix of 33"),
        Err(e) => assert_eq!(e, RouteError::InvalidPrefix(33)),
    }
}

#[test]
fn installed_routes_keep_what_the_system_took_and_delete_it_at_the_end() {
    let calls = Rc::new(RefCell::new(Vec::new()));
    let ops = RecOps { calls: Rc::clone(&calls), fails: false };
    let mut routes = InstalledRoutes::install(&vec![net("10.1.0.0/16"), net("10.2.0.0/16")], ops);
    assert_eq!(routes.len(), 2);
    routes.teardown();
    assert_eq!(
        *calls.borrow(),
        vec!["+10.1.0.0/16", "+10.2.0.0/16", "-10.1.0.0/16", "-10.2.0.0/16"]
    );

    let refused = Rc::new(RefCell::new(Vec::new()));
    let ops = RecOps { calls: Rc::clone(&refused), fails: true };
    let mut routes = InstalledRoutes::install(&vec![net("10.1.0.0/16")], ops);
    assert!(routes.is_empty());
    routes.teardown();
    assert_eq!(*refused.borrow(), vec!["+10.1.0.0/16"]);
}

#[test]
fn a_reference_counts_even_where_the_system_refuses_the_route() {
    let calls = Rc::new(RefCell::new(Vec::new()));
    let ops = RecOps { calls: Rc::clone(&calls), fails: true };
    let mut lc = match RouteLifecycle::new(ops, v4("10.99.0.1"), 24, vec![]) {
        Ok(lc) => lc,
        Err(e) => panic!("{e:?}"),
    };
    lc.add(net("10.1.0.0/16"));
    lc.add(net("10.1.0.0/16"));
    assert_eq!(lc.installed(), 1);
    assert_eq!(*calls.borrow(), vec!["+10.1.0.0/16"]);
}

#[test]
fn the_control_plane_is_never_routed() {
    let on_link = net("10.99.0.0/24");
    let control_plane = vec![ip("10.0.0.5")];
    assert!(!route_allowed(net("10.0.0.0/8"), on_link, &control_plane));
    assert!(!route_allowed(net("10.0.0.5"), on_link, &control_plane));
    assert!(route_allowed(net("10.0.0.6"), on_link, &control_plane));
    assert!(!route_allowed(net("fd00::/8"), on_link, &control_plane));
}

fn sharing(name: &str, addresses: &[&str]) -> Service {
    Service {
        name: name.to_string(),
        permissions: vec!["Dial".to_string()],
        configs: vec![ServiceConfig {
            config_type: "intercept.v1".to_string(),
            raw: format!("{addresses:?}"),
            intercept: Ok(InterceptV1Config {
                protocols: vec!["tcp".to_string()],
                addresses: addresses.iter().map(|a| (*a).to_string()).collect(),
                port_ranges: vec![PortRange { low: 80, high: 80 }],
                ..Default::default()
            }),
        }],
    }
}

#[test]
fn a_network_stays_routed_until_the_last_service_gives_it_up() {
    let calls = Rc::new(RefCell::new(Vec::new()));
    let ops = RecOps { calls: Rc::clone(&calls), fails: false };
    let mut lc = match RouteLifecycle::new(ops, v4("10.99.0.1"), 24, vec![]) {
        Ok(lc) => lc,
        Err(e) => panic!("{e:?}"),
    };
    let mut resolver = InterceptResolver::from_services(&vec![]);
    let events = vec![
        ServiceEvent::Added(sharing("a", &["10.1.0.0/16", "10.1.0.0/16", "10.2.0.0/16"])),
        ServiceEvent::Added(sharing("b", &["10.1.0.0/16"])),
        ServiceEvent::Changed(sharing("a", &["10.3.0.0/16"])),
        ServiceEvent::Removed(sharing("b", &[])),
        ServiceEvent::Removed(sharing("a", &[])),
    ];
    let mut installed = Vec::new();
    for ev in &events {
        let applied = resolver.apply_event(ev);
        lc.apply_delta(&applied.routes);
        installed.push(lc.installed());
    }
    assert_eq!(installed, vec![2, 2, 2, 1, 0]);
    assert_eq!(
        *calls.borrow(),
        vec![
            "+10.1.0.0/16",
            "+10.2.0.0/16",
            "-10.2.0.0/16",
            "+10.3.0.0/16",
            "-10.1.0.0/16",
            "-10.3.0.0/16",
        ]
    );
}

#[test]
fn a_list_that_is_referred_to_and_given_up_leaves_the_counts() {
    let calls = Rc::new(RefCell::new(Vec::new()));
    let ops = RecOps { calls: Rc::clone(&calls), fails: false };
    let mut lc = match RouteLifecycle::new(ops, v4("10.99.0.1"), 24, vec![]) {
        Ok(lc) => lc,
        Err(e) => panic!("{e:?}"),
    };
    lc.add(net("10.1.0.0/16"));
    let list = vec![net("10.1.0.0/16"), net("10.4.0.0/16"), net("fd00::/8"), net("10.4.0.0/16")];
    lc.apply_delta(&RouteDelta { removed: vec![], added: list.clone() });
    assert_eq!(lc.installed(), 2);
    lc.apply_delta(&RouteDelta { removed: list, added: vec![] });
    assert_eq!(lc.installed(), 1);
    lc.delete(net("10.1.0.0/16"));
    assert_eq!(lc.installed(), 0);
    assert_eq!(
        *calls.borrow(),
        vec!["+10.1.0.0/16", "+10.4.0.0/16", "-10.4.0.0/16", "-10.1.0.0/16"]
    );
}

#[test]
fn a_controller_at_an_ipv6_address_is_protected() {
    let addrs = control_plane_addrs(&vec!["https://[fd00::1]:1280".to_string()], &vec![vec![]]);
    assert_eq!(addrs, vec![ip("fd00::1")]);
    assert_eq!(
        classify_host(Some("[fd00::1]".to_string())),
        ControllerHost::Address(ip("fd00::1"))
    );
    assert_eq!(
        classify_host(Some("fd00::1".to_string())),
        ControllerHost::Address(ip("fd00::1"))
    );
    for name in ["[10.0.0.1]", "[fd00::1", "[]", "[", "[host]"] {
        assert_eq!(classify_host(Some(name.to_string())), ControllerHost::Name(name.to_string()));
    }
    assert_eq!(classify_host(None), ControllerHost::Unreadable);
}

#[test]
fn references_ask_for_the_plan_of_their_list() {
    let list = vec![
        net("192.168.5.0/24"),
        net("10.99.0.0/25"),
        net("fd00::/8"),
        net("172.16.0.0/16"),
        net("192.168.5.0/24"),
        net("192.168.6.0/24"),
    ];
    let control_plane = vec![ip("172.16.0.9")];
    let planned = plan_routes(&list, v4("10.99.0.1"), 24, &control_plane);
    assert_eq!(planned, vec![net("192.168.5.0/24"), net("192.168.6.0/24")]);
    for fails in [false, true] {
        let calls = Rc::new(RefCell::new(Vec::new()));
        let ops = RecOps { calls: Rc::clone(&calls), fails };
        let mut lc = match RouteLifecycle::new(ops, v4("10.99.0.1"), 24, control_plane.clone()) {
            Ok(lc) => lc,
            Err(e) => panic!("{e:?}"),
        };
        for c in &list {
            lc.add(*c);
        }
        let asked: Vec<String> = planned.iter().map(|c| format!("+{}", shown(*c))).collect();
        assert_eq!(*calls.borrow(), asked);
        assert_eq!(lc.installed(), planned.len());
    }
}

#[test]
fn what_the_system_agreed_to_is_kept_in_order() {
    let planned = vec![net("10.1.0.0/16"), net("10.2.0.0/16"), net("10.3.0.0/16")];
    assert_eq!(
        keep_agreed(&planned, &vec![true, false, true]),
        vec![net("10.1.0.0/16"), net("10.3.0.0/16")]
    );
    assert!(keep_agreed(&vec![], &vec![]).is_empty());
}

#[test]
fn a_change_that_moves_nothing_is_the_default() {
    assert!(RouteDelta::default().is_empty());
    assert_eq!(RouteDelta::default(), RouteDelta::nothing());
    assert_eq!(AppliedEvent::default(), AppliedEvent::nothing());
    assert!(!AppliedEvent::default().kill_active);
    assert!(InterceptResolver::default().is_empty());
    let delta = RouteDelta { removed: vec![net("10.1.0.0/16")], added: vec![] };
    assert_eq!(delta.clone(), delta);
    let resolver = InterceptResolver::from_services(&vec![sharing("a", &["10.1.0.0/16"])]);
    let dst = ip("10.1.0.1");
    let copy = resolver.clone();
    let found = copy.lookup(dst, 80, Protocol::Tcp, dst);
    assert_eq!(found, resolver.lookup(dst, 80, Protocol::Tcp, dst));
    assert_eq!(found.map(|m| m.service), Some("a"));
}

#[test]
fn routes_balance_over_a_sequence_of_changes() {
    let mut resolver = InterceptResolver::from_services(&vec![]);
    let shared = net("10.1.0.0/16");
    let v6 = net("fd00::/8");
    let events = vec![
        ServiceEvent::Added(sharing("a", &["10.1.0.0/16", "10.1.0.0/16", "fd00::/8"])),
        ServiceEvent::Added(sharing("b", &["10.1.0.0/16", "name.ziti"])),
        ServiceEvent::Added(sharing("b", &["10.1.0.0/16", "name.ziti"])),
        ServiceEvent::Changed(sharing("a", &["10.1.0.0/16"])),
        ServiceEvent::Removed(sharing("c", &["10.1.0.0/16"])),
        ServiceEvent::Removed(sharing("b", &[])),
    ];
    let mut balance = Vec::new();
    let (mut of_shared, mut of_v6) = (0i64, 0i64);
    for ev in &events {
        let delta = resolver.apply_event(ev).routes;
        let times = |l: &Vec<IpNet>, n: IpNet| i64::try_from(l.iter().filter(|c| **c == n).count()).unwrap();
        assert!(times(&delta.removed, shared) <= of_shared);
        assert!(times(&delta.removed, v6) <= of_v6);
        of_shared += times(&delta.added, shared) - times(&delta.removed, shared);
        of_v6 += times(&delta.added, v6) - times(&delta.removed, v6);
        balance.push((of_shared, of_v6));
    }
    assert_eq!(balance, vec![(2, 1), (3, 1), (3, 1), (2, 0), (2, 0), (1, 0)]);
}

#[test]
fn removing_a_service_undoes_its_addition() {
    let mut resolver = InterceptResolver::from_services(&vec![
        sharing("a", &["10.1.0.0/16", "10.2.0.0/16"]),
        sharing("b", &["10.3.0.0/16"]),
    ]);
    let cidrs = resolver.intercept_cidrs();
    let s = sharing("c", &["10.4.0.0/16", "10.1.0.0/16", "10.4.0.0/16"]);
    let added = resolver.add_service(&s).routes.added;
    assert_eq!(added, vec![net("10.4.0.0/16"), net("10.1.0.0/16"), net("10.4.0.0/16")]);
    assert_eq!(resolver.intercept_cidrs().len(), 4);
    assert_eq!(resolver.remove_service("c"), added);
    assert_eq!(resolver.intercept_cidrs(), cidrs);
    let src = ip("10.0.0.1");
    for (dst, want) in [("10.1.0.1", Some("a")), ("10.3.0.1", Some("b")), ("10.4.0.1", None)] {
        let found = resolver.lookup(ip(dst), 80, Protocol::Tcp, src).map(|m| m.service);
        assert_eq!(found, want);
    }
}
