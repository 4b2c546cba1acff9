use ziti_intercept::addr::{parse_ip, parse_ip_or_cidr, IpAddr, IpNet};
use ziti_intercept::config::{
    intercept_v1_config, DialOptions, InterceptV1Config, PortRange, Service, ServiceConfig,
    ServiceEvent,
};
use ziti_intercept::dns::{DnsMatcher, RegisterOutcome};
use ziti_intercept::resolve::{InterceptResolver, Protocol, WildcardEntry};

const ANY_SRC: IpAddr = IpAddr::V4(0x0a00_0063);

const CIDR_A: &str = r#"{"intercept.v1":{"protocols":["tcp"],"addresses":["10.0.0.0/24"],"portRanges":[{"low":80,"high":80}]}}"#;
const CIDR_B: &str = r#"{"intercept.v1":{"protocols":["tcp"],"addresses":["10.1.0.0/24"],"portRanges":[{"low":80,"high":80}]}}"#;

fn texts(v: &serde_json::Value, key: &str) -> Result<Vec<String>, String> {
    match v.get(key) {
        None => Ok(Vec::new()),
        Some(list) => list
            .as_array()
            .ok_or_else(|| format!("{key}: not a list"))?
            .iter()
            .map(|x| x.as_str().map(str::to_string).ok_or_else(|| format!("{key}: not a text")))
            .collect(),
    }
}

fn text(v: &serde_json::Value, key: &str) -> Option<String> {
    v.get(key).and_then(|x| x.as_str()).map(str::to_string)
}

fn port(v: &serde_json::Value, key: &str) -> u16 {
    u16::try_from(v[key].as_u64().unwrap()).unwrap()
}

fn read_config(v: &serde_json::Value) -> Result<InterceptV1Config, String> {
    let port_ranges = match v.get("portRanges") {
        None => Vec::new(),
        Some(list) => list
            .as_array()
            .unwrap()
            .iter()
            .map(|r| PortRange { low: port(r, "low"), high: port(r, "high") })
            .collect(),
    };
    let dial_options = v.get("dialOptions").map(|o| DialOptions {
        connect_timeout_seconds: o
            .get("connectTimeoutSeconds")
            .map(|n| u32::try_from(n.as_u64().unwrap()).unwrap()),
        identity: text(o, "identity"),
    });
    Ok(InterceptV1Config {
        protocols: texts(v, "protocols")?,
        addresses: texts(v, "addresses")?,
        port_ranges,
        dial_options,
        source_ip: text(v, "sourceIp"),
        allowed_source_addresses: texts(v, "allowedSourceAddresses")?,
    })
}

fn svc(name: &str, config_json: &str) -> Service {
    svc_perms(name, config_json, &["Dial"])
}

fn svc_perms(name: &str, config_json: &str, perms: &[&str]) -> Service {
    let config: serde_json::Value = serde_json::from_str(config_json).unwrap();
    Service {
        name: name.to_string(),
        permissions: perms.iter().map(|s| (*s).to_string()).collect(),
        configs: config
            .as_object()
            .unwrap()
            .iter()
            .map(|(key, value)| ServiceConfig {
                config_type: key.clone(),
                raw: value.to_string(),
                intercept: read_config(value),
            })
            .collect(),
    }
}

fn ip(s: &str) -> IpAddr {
    parse_ip(s).unwrap()
}

fn v4(s: &str) -> u32 {
    match ip(s) {
        IpAddr::V4(a) => a,
        IpAddr::V6(_) => unreachable!(),
    }
}

fn cidr(s: &str) -> IpNet {
    parse_ip_or_cidr(s).unwrap()
}

fn one_svc_resolver(config_json: &str) -> InterceptResolver {
    InterceptResolver::from_services(&vec![svc("svc", config_json)])
}

fn one_svc_resolver_with_dns(config_json: &str, dns: DnsMatcher) -> InterceptResolver {
    InterceptResolver::from_services_with_dns(&vec![svc("svc", config_json)], dns)
}

fn seeded_dns() -> DnsMatcher {
    let mut dns = DnsMatcher::new();
    assert!(dns.seed_pool("10.99.0.0/24"));
    dns
}

#[test]
fn intercept_v1_parses_full_shape() {
    let s = svc(
        "svc",
        r#"{"intercept.v1":{"protocols":["tcp","udp"],"addresses":["10.0.0.0/24","app.example.com"],
                "portRanges":[{"low":80,"high":90}],"dialOptions":{"connectTimeoutSeconds":7,"identity":"$dst_ip"},
                "sourceIp":"1.2.3.4","allowedSourceAddresses":["192.168.0.0/16"]}}"#,
    );
    let cfg = intercept_v1_config(&s).unwrap().unwrap();
    assert_eq!(cfg.protocols, vec!["tcp", "udp"]);
    assert_eq!(cfg.addresses, vec!["10.0.0.0/24", "app.example.com"]);
    assert_eq!(cfg.port_ranges, vec![PortRange { low: 80, high: 90 }]);
    assert_eq!(cfg.dial_options.as_ref().unwrap().connect_timeout_seconds, Some(7));
    assert_eq!(cfg.dial_options.as_ref().unwrap().identity.as_deref(), Some("$dst_ip"));
    assert_eq!(cfg.source_ip.as_deref(), Some("1.2.3.4"));
    assert_eq!(cfg.allowed_source_addresses, vec!["192.168.0.0/16"]);
}

#[test]
fn intercept_v1_absent_is_none() {
    let s = svc(
        "svc",
        r#"{"host.v1":{"address":"x","port":1,"protocol":"tcp"}}"#,
    );
    assert!(intercept_v1_config(&s).unwrap().is_none());
}

#[test]
fn intercept_v1_malformed_is_err() {
    let s = svc("svc", r#"{"intercept.v1":{"protocols":3}}"#);
    assert!(intercept_v1_config(&s).is_err());
}

#[test]
fn lookup_matches_cidr_port_and_protocol() {
    let r = one_svc_resolver(
        r#"{"intercept.v1":{"protocols":["tcp"],"addresses":["10.0.0.0/24"],"portRanges":[{"low":80,"high":80}]}}"#,
    );
    let m = r.lookup(ip("10.0.0.5"), 80, Protocol::Tcp, ANY_SRC).unwrap();
    assert_eq!(m.service, "svc");
    assert_eq!(m.dial_timeout, 5);
}

#[test]
fn lookup_misses_outside_cidr_port_or_protocol() {
    let r = one_svc_resolver(
        r#"{"intercept.v1":{"protocols":["tcp"],"addresses":["10.0.0.0/24"],"portRanges":[{"low":80,"high":80}]}}"#,
    );
    assert!(r.lookup(ip("10.0.1.5"), 80, Protocol::Tcp, ANY_SRC).is_none());
    assert!(r.lookup(ip("10.0.0.5"), 81, Protocol::Tcp, ANY_SRC).is_none());
    assert!(r.lookup(ip("10.0.0.5"), 80, Protocol::Udp, ANY_SRC).is_none());
}

#[test]
fn protocol_match_is_case_sensitive() {
    let r = one_svc_resolver(
        r#"{"intercept.v1":{"protocols":["TCP"],"addresses":["10.0.0.0/24"],"portRanges":[{"low":80,"high":80}]}}"#,
    );
    assert!(r.lookup(ip("10.0.0.5"), 80, Protocol::Tcp, ANY_SRC).is_none());
}

#[test]
fn port_range_is_inclusive_both_ends() {
    let r = one_svc_resolver(
        r#"{"intercept.v1":{"protocols":["tcp"],"addresses":["10.0.0.0/24"],"portRanges":[{"low":80,"high":90}]}}"#,
    );
    assert!(r.lookup(ip("10.0.0.5"), 80, Protocol::Tcp, ANY_SRC).is_some());
    assert!(r.lookup(ip("10.0.0.5"), 90, Protocol::Tcp, ANY_SRC).is_some());
    assert!(r.lookup(ip("10.0.0.5"), 79, Protocol::Tcp, ANY_SRC).is_none());
    assert!(r.lookup(ip("10.0.0.5"), 91, Protocol::Tcp, ANY_SRC).is_none());
}

#[test]
fn bare_ip_address_is_host_route() {
    let r = one_svc_resolver(
        r#"{"intercept.v1":{"protocols":["tcp"],"addresses":["1.2.3.4"],"portRanges":[{"low":443,"high":443}]}}"#,
    );
    assert!(r.lookup(ip("1.2.3.4"), 443, Protocol::Tcp, ANY_SRC).is_some());
    assert!(r.lookup(ip("1.2.3.5"), 443, Protocol::Tcp, ANY_SRC).is_none());
}

#[test]
fn ipv6_cidr_matches() {
    let r = one_svc_resolver(
        r#"{"intercept.v1":{"protocols":["tcp"],"addresses":["fd00::/8"],"portRanges":[{"low":80,"high":80}]}}"#,
    );
    assert!(r.lookup(ip("fd00::1"), 80, Protocol::Tcp, ANY_SRC).is_some());
    assert!(r.lookup(ip("fe00::1"), 80, Protocol::Tcp, ANY_SRC).is_none());

    assert!(r.lookup(ip("10.0.0.1"), 80, Protocol::Tcp, ANY_SRC).is_none());
}

#[test]
fn bind_only_service_is_not_intercepted() {
    let s = svc_perms(
        "bindonly",
        r#"{"intercept.v1":{"protocols":["tcp"],"addresses":["10.0.0.0/24"],"portRanges":[{"low":80,"high":80}]}}"#,
        &["Bind"],
    );
    let r = InterceptResolver::from_services(&vec![s]);
    assert!(r.is_empty());
    assert!(r.lookup(ip("10.0.0.5"), 80, Protocol::Tcp, ANY_SRC).is_none());
}

#[test]
fn dial_permitted_among_perms_is_intercepted() {
    let s = svc_perms(
        "both",
        r#"{"intercept.v1":{"protocols":["tcp"],"addresses":["10.0.0.0/24"],"portRanges":[{"low":80,"high":80}]}}"#,
        &["Bind", "Dial"],
    );
    let r = InterceptResolver::from_services(&vec![s]);
    assert!(r.lookup(ip("10.0.0.5"), 80, Protocol::Tcp, ANY_SRC).is_some());
}

#[test]
fn source_whitelist_restricts_to_listed_sources() {
    let r = one_svc_resolver(
        r#"{"intercept.v1":{"protocols":["tcp"],"addresses":["10.0.0.0/24"],"portRanges":[{"low":80,"high":80}],
                "allowedSourceAddresses":["192.168.0.0/16"]}}"#,
    );
    assert!(r.lookup(ip("10.0.0.5"), 80, Protocol::Tcp, ip("192.168.1.1")).is_some());
    assert!(r.lookup(ip("10.0.0.5"), 80, Protocol::Tcp, ip("172.16.0.1")).is_none());
}

#[test]
fn empty_source_whitelist_allows_any_source() {
    let r = one_svc_resolver(
        r#"{"intercept.v1":{"protocols":["tcp"],"addresses":["10.0.0.0/24"],"portRanges":[{"low":80,"high":80}]}}"#,
    );
    assert!(r.lookup(ip("10.0.0.5"), 80, Protocol::Tcp, ip("8.8.8.8")).is_some());
}

#[test]
fn source_whitelist_of_only_hostnames_matches_no_source_not_all() {
    let r = one_svc_resolver(
        r#"{"intercept.v1":{"protocols":["tcp"],"addresses":["10.0.0.0/24"],"portRanges":[{"low":80,"high":80}],
                "allowedSourceAddresses":["only-a-hostname.example.com","*.wild.example.com"]}}"#,
    );

    assert!(r.lookup(ip("10.0.0.5"), 80, Protocol::Tcp, ip("192.168.1.1")).is_none());
}

#[test]
fn source_whitelist_mixed_keeps_parsed_cidrs() {
    let r = one_svc_resolver(
        r#"{"intercept.v1":{"protocols":["tcp"],"addresses":["10.0.0.0/24"],"portRanges":[{"low":80,"high":80}],
                "allowedSourceAddresses":["a-hostname.example.com","192.168.0.0/16"]}}"#,
    );
    assert!(r.lookup(ip("10.0.0.5"), 80, Protocol::Tcp, ip("192.168.1.1")).is_some());
    assert!(r.lookup(ip("10.0.0.5"), 80, Protocol::Tcp, ip("172.16.0.1")).is_none());
}

#[test]
fn overlap_returns_first_service_in_list_order() {
    let a = svc(
        "alpha",
        r#"{"intercept.v1":{"protocols":["tcp"],"addresses":["10.0.0.0/8"],"portRanges":[{"low":80,"high":80}]}}"#,
    );
    let b = svc(
        "beta",
        r#"{"intercept.v1":{"protocols":["tcp"],"addresses":["10.0.0.0/24"],"portRanges":[{"low":80,"high":80}]}}"#,
    );
    let r = InterceptResolver::from_services(&vec![a, b]);

    assert_eq!(r.lookup(ip("10.0.0.5"), 80, Protocol::Tcp, ANY_SRC).unwrap().service, "alpha");
}

#[test]
fn hostname_without_pool_produces_no_literal_entry_and_wildcard_is_non_dispatchable() {
    let mut r = one_svc_resolver(
        r#"{"intercept.v1":{"protocols":["tcp"],"addresses":["app.example.com","*.svc.example.com"],
                "portRanges":[{"low":80,"high":80}]}}"#,
    );

    assert!(r.lookup(ip("10.99.0.5"), 80, Protocol::Tcp, ANY_SRC).is_none());

    assert!(r.dns_mut().lookup("app.svc.example.com").is_none());
}

#[test]
fn mixed_addresses_keep_only_ip_cidr_entries() {
    let r = one_svc_resolver(
        r#"{"intercept.v1":{"protocols":["tcp"],"addresses":["10.0.0.0/24","app.example.com"],
                "portRanges":[{"low":80,"high":80}]}}"#,
    );
    assert!(r.lookup(ip("10.0.0.5"), 80, Protocol::Tcp, ANY_SRC).is_some());
}

#[test]
fn matcher_parse_set_equals_go_getcidr() {
    let parse_cases: &[(&str, bool)] = &[
        ("10.0.0.0/8", true),
        ("192.168.1.0/24", true),
        ("1.2.3.4", true),
        ("1.2.3.4/32", true),
        ("0.0.0.0/0", true),
        ("100.64.0.0/10", true),
        ("::1", true),
        ("fd00::/8", true),
        ("2001:db8::/32", true),
        ("10.0.0.0/24", true),

        ("010.0.0.0/8", false),
        ("10.0.0.0/08", false),
        ("::ffff:010.0.0.1/120", false),
        ("1.2.3.4/00", false),
        ("1.2.3.4/33", false),
        ("1.2.3.256", false),
        ("", false),

        ("10.0.0.0/+8", false),
        ("10.0.0.0/+0", false),
        ("10.0.0.0/+08", false),
        ("1.2.3.4/+32", false),
        ("fd00::/+8", false),
        ("10.0.0.0/-8", false),

        ("10.0.0.0/24", true),
        ("fd00::/128", true),
    ];
    for (addr, parses) in parse_cases {
        assert_eq!(parse_ip_or_cidr(addr).is_some(), *parses);
    }
}

#[test]
fn matcher_contains_masking_equals_go() {
    let contains_cases: &[(&str, &[(&str, bool)])] = &[
        (
            "10.0.0.0/8",
            &[
                ("10.0.0.1", true),
                ("10.255.255.255", true),
                ("10.0.0.255", true),
                ("11.0.0.1", false),
                ("9.255.255.255", false),
            ],
        ),
        (
            "10.0.0.0/24",
            &[
                ("10.0.0.0", true),
                ("10.0.0.1", true),
                ("10.0.0.255", true),
                ("10.0.1.0", false),
            ],
        ),
        (
            "192.168.1.0/24",
            &[("192.168.1.1", true), ("192.168.2.1", false)],
        ),

        (
            "10.0.0.5/24",
            &[
                ("10.0.0.99", true),
                ("10.0.0.0", true),
                ("10.0.0.255", true),
                ("10.0.1.0", false),
                ("11.0.0.5", false),
            ],
        ),
        (
            "fd00::5/8",
            &[("fd00::99", true), ("fd00::", true), ("fe00::1", false)],
        ),
        (
            "1.2.3.4/32",
            &[("1.2.3.4", true), ("1.2.3.5", false), ("1.2.3.3", false)],
        ),
        (
            "0.0.0.0/0",

            &[
                ("0.0.0.0", true),
                ("255.255.255.255", true),
                ("8.8.8.8", true),
                ("::1", false),
                ("fd00::1", false),
            ],
        ),
        (
            "100.64.0.0/10",
            &[
                ("100.64.0.7", true),
                ("100.127.255.255", true),
                ("100.128.0.0", false),
                ("100.63.255.255", false),
            ],
        ),
        (
            "fd00::/8",
            &[
                ("fd00::1", true),
                ("fdff:ffff:ffff:ffff:ffff:ffff:ffff:ffff", true),
                ("fe00::1", false),
                ("10.0.0.1", false),
            ],
        ),
        (
            "2001:db8::/32",
            &[("2001:db8::1", true), ("2001:db9::1", false)],
        ),
    ];
    for (addr, probes) in contains_cases {
        let net = parse_ip_or_cidr(addr).unwrap();
        for (probe, expected) in *probes {
            assert_eq!(net.contains(&ip(probe)), *expected);
        }
    }
}

#[test]
fn v4mapped_network_unmaps_to_v4_like_go() {
    let cases: &[(&str, &[(&str, bool)])] = &[
        (
            "::ffff:1.2.3.4/120",
            &[
                ("1.2.3.4", true),
                ("1.2.3.99", true),
                ("1.2.4.1", false),
                ("2001:db8::1", false),
            ],
        ),
        (
            "::ffff:1.2.3.4/128",
            &[("1.2.3.4", true), ("1.2.3.5", false)],
        ),
        (
            "::ffff:1.2.3.4/96",
            &[("8.8.8.8", true), ("1.2.3.4", true), ("2001:db8::1", false)],
        ),
        (
            "::ffff:1.2.3.4/64",
            &[("::1", false), ("2001:db8::1", false), ("1.2.3.4", true)],
        ),
        (
            "::ffff:10.20.30.40",
            &[("10.20.30.40", true), ("10.20.30.41", false)],
        ),
    ];
    for (addr, probes) in cases {
        let net = parse_ip_or_cidr(addr).unwrap();
        for (probe, expected) in *probes {
            assert_eq!(net.contains(&ip(probe)), *expected);
        }
    }
}

#[test]
fn v4mapped_destination_literal_residual_class() {
    assert!(parse_ip_or_cidr("fe80::1%eth0").is_none());

    let r_v4 = one_svc_resolver(
        r#"{"intercept.v1":{"protocols":["tcp"],"addresses":["1.2.3.4/32"],"portRanges":[{"low":80,"high":80}]}}"#,
    );
    assert!(r_v4.lookup(ip("::ffff:1.2.3.4"), 80, Protocol::Tcp, ANY_SRC).is_none());

    let r_v6 = one_svc_resolver(
        r#"{"intercept.v1":{"protocols":["tcp"],"addresses":["::/0"],"portRanges":[{"low":80,"high":80}]}}"#,
    );
    assert!(r_v6.lookup(ip("::ffff:1.2.3.4"), 80, Protocol::Tcp, ANY_SRC).is_some());
}

#[test]
fn intercept_cidrs_returns_distinct_cidrs_in_first_seen_order() {
    let resolver = InterceptResolver::from_services(&vec![
        svc(
            "a",
            r#"{"intercept.v1":{"protocols":["tcp","udp"],"addresses":["10.0.0.0/24"],"portRanges":[{"low":80,"high":81}]}}"#,
        ),
        svc(
            "b",
            r#"{"intercept.v1":{"protocols":["tcp"],"addresses":["10.0.0.0/24","192.168.5.0/24"],"portRanges":[{"low":443,"high":443}]}}"#,
        ),
    ]);
    assert_eq!(
        resolver.intercept_cidrs(),
        vec![cidr("10.0.0.0/24"), cidr("192.168.5.0/24")],
    );
}

#[test]
fn intercept_cidrs_omits_hostname_addresses() {
    let resolver = InterceptResolver::from_services(&vec![svc(
        "h",
        r#"{"intercept.v1":{"protocols":["tcp"],"addresses":["app.example.com","10.1.0.0/16"],"portRanges":[{"low":80,"high":80}]}}"#,
    )]);
    assert_eq!(resolver.intercept_cidrs(), vec![cidr("10.1.0.0/16")]);
}

#[test]
fn add_service_installs_a_new_intercept() {
    let mut r = InterceptResolver::from_services(&Vec::new());
    assert!(r.is_empty());
    r.add_service(&svc("a", CIDR_A));
    assert_eq!(r.lookup(ip("10.0.0.5"), 80, Protocol::Tcp, ANY_SRC).unwrap().service, "a");
}

#[test]
fn remove_service_stops_only_that_services_dispatch() {
    let mut r = InterceptResolver::from_services(&vec![svc("a", CIDR_A), svc("b", CIDR_B)]);
    assert_eq!(r.lookup(ip("10.0.0.5"), 80, Protocol::Tcp, ANY_SRC).unwrap().service, "a");
    r.remove_service("a");
    assert!(r.lookup(ip("10.0.0.5"), 80, Protocol::Tcp, ANY_SRC).is_none());
    assert_eq!(r.lookup(ip("10.1.0.5"), 80, Protocol::Tcp, ANY_SRC).unwrap().service, "b");
}

#[test]
fn folding_add_service_preserves_snapshot_ip_assignment_order() {
    let services = vec![
        svc(
            "a",
            r#"{"intercept.v1":{"protocols":["tcp"],"addresses":["host-a.example.com"],"portRanges":[{"low":80,"high":80}]}}"#,
        ),
        svc(
            "b",
            r#"{"intercept.v1":{"protocols":["tcp"],"addresses":["host-b.example.com"],"portRanges":[{"low":80,"high":80}]}}"#,
        ),
    ];

    let mut probe = seeded_dns();
    let ip_a = match probe.register("host-a.example.com", "a") {
        RegisterOutcome::Hostname(x) => x,
        o => panic!("{o:?}"),
    };
    let ip_b = match probe.register("host-b.example.com", "b") {
        RegisterOutcome::Hostname(x) => x,
        o => panic!("{o:?}"),
    };
    assert_ne!(ip_a, ip_b);

    let snap = InterceptResolver::from_services_with_dns(&services, seeded_dns());
    let mut fold = InterceptResolver::from_services_with_dns(&Vec::new(), seeded_dns());
    for s in &services {
        fold.add_service(s);
    }
    for r in [&snap, &fold] {
        assert_eq!(r.lookup(IpAddr::V4(ip_a), 80, Protocol::Tcp, ANY_SRC).unwrap().service, "a");
        assert_eq!(r.lookup(IpAddr::V4(ip_b), 80, Protocol::Tcp, ANY_SRC).unwrap().service, "b");
    }
}

#[test]
fn apply_event_added_installs() {
    let mut r = InterceptResolver::from_services(&Vec::new());
    r.apply_event(&ServiceEvent::Added(svc("a", CIDR_A)));
    assert_eq!(r.lookup(ip("10.0.0.5"), 80, Protocol::Tcp, ANY_SRC).unwrap().service, "a");
}

#[test]
fn apply_event_changed_valid_replaces_addresses() {
    let mut r = InterceptResolver::from_services(&vec![svc("a", CIDR_A)]);
    assert!(r.lookup(ip("10.0.0.5"), 80, Protocol::Tcp, ANY_SRC).is_some());
    r.apply_event(&ServiceEvent::Changed(svc("a", CIDR_B)));
    assert!(r.lookup(ip("10.0.0.5"), 80, Protocol::Tcp, ANY_SRC).is_none());
    assert_eq!(r.lookup(ip("10.1.0.5"), 80, Protocol::Tcp, ANY_SRC).unwrap().service, "a");
}

#[test]
fn apply_event_changed_losing_dial_removes() {
    let mut r = InterceptResolver::from_services(&vec![svc("a", CIDR_A)]);
    assert!(r.lookup(ip("10.0.0.5"), 80, Protocol::Tcp, ANY_SRC).is_some());

    r.apply_event(&ServiceEvent::Changed(svc_perms("a", CIDR_A, &["Bind"])));
    assert!(r.lookup(ip("10.0.0.5"), 80, Protocol::Tcp, ANY_SRC).is_none());
}

#[test]
fn apply_event_changed_dial_without_intercept_v1_keeps_old() {
    let mut r = InterceptResolver::from_services(&vec![svc("a", CIDR_A)]);
    assert!(r.lookup(ip("10.0.0.5"), 80, Protocol::Tcp, ANY_SRC).is_some());

    r.apply_event(&ServiceEvent::Changed(svc(
        "a",
        r#"{"host.v1":{"address":"x","port":1,"protocol":"tcp"}}"#,
    )));
    assert_eq!(r.lookup(ip("10.0.0.5"), 80, Protocol::Tcp, ANY_SRC).unwrap().service, "a");
}

#[test]
fn apply_event_removed_retires() {
    let mut r = InterceptResolver::from_services(&vec![svc("a", CIDR_A)]);
    r.apply_event(&ServiceEvent::Removed(svc("a", CIDR_A)));
    assert!(r.lookup(ip("10.0.0.5"), 80, Protocol::Tcp, ANY_SRC).is_none());
}

#[test]
fn removing_one_of_two_services_sharing_a_wildcard_domain_keeps_the_survivor() {
    let cfg = r#"{"intercept.v1":{"protocols":["tcp"],"addresses":["*.example.com"],"portRanges":[{"low":80,"high":80}]}}"#;
    let mut r =
        InterceptResolver::from_services_with_dns(&vec![svc("a", cfg), svc("b", cfg)], seeded_dns());

    let assigned = r.dns_mut().lookup("host.example.com").unwrap().ip;
    let dst = IpAddr::V4(assigned);

    assert_eq!(r.lookup(dst, 80, Protocol::Tcp, ANY_SRC).unwrap().service, "a");
    r.remove_service("a");
    assert_eq!(r.lookup(dst, 80, Protocol::Tcp, ANY_SRC).unwrap().service, "b");
}

#[test]
fn name_reuse_readd_dispatches_the_new_config_only() {
    let mut r = InterceptResolver::from_services(&vec![svc("a", CIDR_A)]);
    r.apply_event(&ServiceEvent::Removed(svc("a", CIDR_A)));
    r.apply_event(&ServiceEvent::Added(svc("a", CIDR_B)));
    assert!(r.lookup(ip("10.0.0.5"), 80, Protocol::Tcp, ANY_SRC).is_none());
    assert_eq!(r.lookup(ip("10.1.0.5"), 80, Protocol::Tcp, ANY_SRC).unwrap().service, "a");
}

#[test]
fn removed_service_releases_domain_lazy_entries_and_ips() {
    let cfg = r#"{"intercept.v1":{"protocols":["tcp"],"addresses":["*.example.com"],"portRanges":[{"low":80,"high":80}]}}"#;
    let mut r = one_svc_resolver_with_dns(cfg, seeded_dns());
    let assigned = r.dns_mut().lookup("host.example.com").unwrap().ip;
    assert_eq!(r.lookup(IpAddr::V4(assigned), 80, Protocol::Tcp, ANY_SRC).unwrap().service, "svc");
    r.remove_service("svc");

    assert!(!r.dns().matches_domain("other.example.com"));

    assert!(r.dns_mut().lookup("host.example.com").is_none());
    assert!(r.dns().reverse_lookup(assigned).is_none());

    assert!(r.lookup(IpAddr::V4(assigned), 80, Protocol::Tcp, ANY_SRC).is_none());
}

#[test]
fn shared_exact_hostname_survives_until_the_last_service_deregisters() {
    let cfg = r#"{"intercept.v1":{"protocols":["tcp"],"addresses":["app.example.com"],"portRanges":[{"low":80,"high":80}]}}"#;
    let mut r =
        InterceptResolver::from_services_with_dns(&vec![svc("a", cfg), svc("b", cfg)], seeded_dns());
    let ip = r.dns_mut().lookup("app.example.com").unwrap().ip;
    r.remove_service("a");
    assert_eq!(r.dns_mut().lookup("app.example.com").unwrap().ip, ip);
    assert_eq!(r.lookup(IpAddr::V4(ip), 80, Protocol::Tcp, ANY_SRC).unwrap().service, "b");
    r.remove_service("b");
    assert!(r.dns_mut().lookup("app.example.com").is_none());
    assert!(r.dns().reverse_lookup(ip).is_none());
}

#[test]
fn shared_domain_keeps_lazy_entries_while_a_claimant_remains() {
    let cfg = r#"{"intercept.v1":{"protocols":["tcp"],"addresses":["*.example.com"],"portRanges":[{"low":80,"high":80}]}}"#;
    let mut r =
        InterceptResolver::from_services_with_dns(&vec![svc("a", cfg), svc("b", cfg)], seeded_dns());
    let assigned = r.dns_mut().lookup("host.example.com").unwrap().ip;
    r.remove_service("a");
    assert!(r.dns().matches_domain("other.example.com"));
    assert_eq!(r.dns_mut().lookup("host.example.com").unwrap().ip, assigned);
    assert_eq!(r.lookup(IpAddr::V4(assigned), 80, Protocol::Tcp, ANY_SRC).unwrap().service, "b");
}

#[test]
fn changed_with_identical_intercept_v1_keeps_dns_state_stable() {
    let cfg = r#"{"intercept.v1":{"protocols":["tcp"],"addresses":["app.example.com","*.wild.example.com"],"portRanges":[{"low":80,"high":80}]}}"#;
    let mut r = one_svc_resolver_with_dns(cfg, seeded_dns());
    let host_ip = r.dns_mut().lookup("app.example.com").unwrap().ip;
    let lazy_ip = r.dns_mut().lookup("x.wild.example.com").unwrap().ip;

    r.apply_event(&ServiceEvent::Changed(svc_perms(
        "svc",
        cfg,
        &["Dial", "Bind"],
    )));
    assert_eq!(r.dns_mut().lookup("app.example.com").map(|x| x.ip), Some(host_ip));
    assert_eq!(r.dns_mut().lookup("x.wild.example.com").map(|x| x.ip), Some(lazy_ip));
    assert_eq!(r.lookup(IpAddr::V4(host_ip), 80, Protocol::Tcp, ANY_SRC).unwrap().service, "svc");
}

#[test]
fn replace_reassigns_the_synthetic_ip_of_an_unshared_hostname() {
    let cfg = r#"{"intercept.v1":{"protocols":["tcp"],"addresses":["app.example.com"],"portRanges":[{"low":80,"high":80}]}}"#;
    let mut r = one_svc_resolver_with_dns(cfg, seeded_dns());
    let old_ip = r.dns_mut().lookup("app.example.com").unwrap().ip;

    r.apply_event(&ServiceEvent::Changed(svc(
            "svc",
            r#"{"intercept.v1":{"protocols":["tcp"],"addresses":["app.example.com"],"portRanges":[{"low":81,"high":81}]}}"#,
        )));
    let new_ip = r.dns_mut().lookup("app.example.com").unwrap().ip;
    assert_ne!(new_ip, old_ip);
    assert!(r.dns().reverse_lookup(old_ip).is_none());
    assert!(r.lookup(IpAddr::V4(old_ip), 81, Protocol::Tcp, ANY_SRC).is_none());
    assert_eq!(r.lookup(IpAddr::V4(new_ip), 81, Protocol::Tcp, ANY_SRC).unwrap().service, "svc");
}

#[test]
fn add_service_delta_reports_literal_addresses_in_config_order_with_duplicates() {
    let mut r = InterceptResolver::from_services_with_dns(&Vec::new(), seeded_dns());
    let delta = r
            .add_service(&svc(
                "a",
                r#"{"intercept.v1":{"protocols":["tcp"],"addresses":["10.7.0.0/24","app.example.com","*.wild.example.com","192.168.9.9","10.7.0.0/24"],"portRanges":[{"low":80,"high":80}]}}"#,
            ))
            .routes;
    assert!(delta.removed.is_empty());
    assert_eq!(delta.added, vec![cidr("10.7.0.0/24"), cidr("192.168.9.9/32"), cidr("10.7.0.0/24")]);
}

#[test]
fn remove_service_delta_returns_the_installed_addresses() {
    let mut r = InterceptResolver::from_services(&vec![svc("a", CIDR_A)]);
    assert_eq!(r.remove_service("a"), vec![cidr("10.0.0.0/24")]);
    assert!(r.remove_service("a").is_empty());
    assert!(r.remove_service("nunca-instalado").is_empty());
}

#[test]
fn apply_event_deltas_mirror_the_on_service_route_branches() {
    let mut r = InterceptResolver::from_services(&Vec::new());

    let d = r.apply_event(&ServiceEvent::Added(svc("a", CIDR_A))).routes;
    assert_eq!((d.removed.clone(), d.added.clone()), (vec![], vec![cidr("10.0.0.0/24")]));

    let d = r
        .apply_event(&ServiceEvent::Changed(svc_perms(
            "a",
            CIDR_A,
            &["Dial", "Bind"],
        )))
        .routes;
    assert!(d.is_empty());

    let d = r
        .apply_event(&ServiceEvent::Changed(svc(
            "a",
            r#"{"host.v1":{"address":"x","port":1,"protocol":"tcp"}}"#,
        )))
        .routes;
    assert!(d.is_empty());

    let d = r
        .apply_event(&ServiceEvent::Changed(svc("a", CIDR_B)))
        .routes;
    assert_eq!(d.removed, vec![cidr("10.0.0.0/24")]);
    assert_eq!(d.added, vec![cidr("10.1.0.0/24")]);

    let d = r
        .apply_event(&ServiceEvent::Changed(svc_perms("a", CIDR_B, &["Bind"])))
        .routes;
    assert_eq!((d.removed.clone(), d.added.clone()), (vec![cidr("10.1.0.0/24")], vec![]));

    let _ = r.apply_event(&ServiceEvent::Added(svc("a", CIDR_B)));
    let d = r
        .apply_event(&ServiceEvent::Removed(svc("a", CIDR_B)))
        .routes;
    assert_eq!((d.removed, d.added), (vec![cidr("10.1.0.0/24")], vec![]));
}

#[test]
fn apply_event_kill_active_truth_table() {
    const HOSTNAME_CFG: &str = r#"{"intercept.v1":{"addresses":["app.ziti.test"],"protocols":["tcp"],"portRanges":[{"low":80,"high":80}]}}"#;
    const HOSTNAME_CFG_B: &str = r#"{"intercept.v1":{"addresses":["other.ziti.test"],"protocols":["tcp"],"portRanges":[{"low":80,"high":80}]}}"#;

    let mut r = InterceptResolver::from_services(&Vec::new());

    let a = r.apply_event(&ServiceEvent::Added(svc("a", CIDR_A)));
    assert!(!a.kill_active);

    let a = r.apply_event(&ServiceEvent::Changed(svc_perms(
        "a",
        CIDR_A,
        &["Dial", "Bind"],
    )));
    assert!(!a.kill_active);

    let a = r.apply_event(&ServiceEvent::Changed(svc(
        "a",
        r#"{"host.v1":{"address":"x","port":1,"protocol":"tcp"}}"#,
    )));
    assert!(!a.kill_active);

    let a = r.apply_event(&ServiceEvent::Changed(svc("a", CIDR_B)));
    assert!(a.kill_active);

    let a = r.apply_event(&ServiceEvent::Changed(svc_perms("a", CIDR_B, &["Bind"])));
    assert!(a.kill_active);

    let a = r.apply_event(&ServiceEvent::Changed(svc_perms("a", CIDR_B, &["Bind"])));
    assert!(!a.kill_active);

    let a = r.apply_event(&ServiceEvent::Removed(svc("a", CIDR_B)));
    assert!(a.kill_active);
    assert!(a.routes.removed.is_empty());

    let mut r = InterceptResolver::from_services_with_dns(&Vec::new(), seeded_dns());
    let a = r.apply_event(&ServiceEvent::Added(svc("h", HOSTNAME_CFG)));
    assert!(a.routes.is_empty() && !a.kill_active);

    let a = r.apply_event(&ServiceEvent::Changed(svc("h", HOSTNAME_CFG_B)));
    assert!(a.routes.is_empty());
    assert!(a.kill_active);

    let a = r.apply_event(&ServiceEvent::Removed(svc("h", HOSTNAME_CFG_B)));
    assert!(a.routes.is_empty() && a.kill_active);
}

#[test]
fn exact_hostname_with_seeded_pool_produces_a_dispatchable_entry() {
    let mut dns = seeded_dns();
    let ip_before = match dns.register("app.example.com", "probe") {
        RegisterOutcome::Hostname(ip) => ip,
        other => panic!("{other:?}"),
    };
    let dns2 = seeded_dns();
    let r = one_svc_resolver_with_dns(
        r#"{"intercept.v1":{"protocols":["tcp"],"addresses":["app.example.com"],
                "portRanges":[{"low":80,"high":80}]}}"#,
        dns2,
    );
    let m = r.lookup(IpAddr::V4(ip_before), 80, Protocol::Tcp, ANY_SRC).unwrap();
    assert_eq!(m.service, "svc");

    let neighbor = ip_before + 1;
    assert!(r.lookup(IpAddr::V4(neighbor), 80, Protocol::Tcp, ANY_SRC).is_none());
}

#[test]
fn wildcard_domain_produces_a_fallback_entry_but_needs_a_query_to_dispatch() {
    let r = one_svc_resolver_with_dns(
        r#"{"intercept.v1":{"protocols":["tcp"],"addresses":["*.svc.example.com"],
                "portRanges":[{"low":80,"high":80}]}}"#,
        seeded_dns(),
    );
    assert!(!r.is_empty());

    assert!(r.lookup(ip("10.99.0.2"), 80, Protocol::Tcp, ANY_SRC).is_none());
}

#[test]
fn wildcard_query_assigns_ip_then_packet_dispatches_end_to_end() {
    let mut r = one_svc_resolver_with_dns(
        r#"{"intercept.v1":{"protocols":["tcp"],"addresses":["*.svc.example.com"],
                "portRanges":[{"low":443,"high":443}]}}"#,
        seeded_dns(),
    );

    let m = r.dns_mut().lookup("app.svc.example.com").unwrap();
    let assigned = m.ip;

    let hit = r.lookup(IpAddr::V4(assigned), 443, Protocol::Tcp, ANY_SRC).unwrap();
    assert_eq!(hit.service, "svc");
}

#[test]
fn wildcard_fallback_respects_protocol_and_port() {
    let mut r = one_svc_resolver_with_dns(
        r#"{"intercept.v1":{"protocols":["tcp"],"addresses":["*.svc.example.com"],
                "portRanges":[{"low":443,"high":443}]}}"#,
        seeded_dns(),
    );
    let assigned = r.dns_mut().lookup("app.svc.example.com").unwrap().ip;
    let dst = IpAddr::V4(assigned);
    assert!(r.lookup(dst, 443, Protocol::Tcp, ANY_SRC).is_some());
    assert!(r.lookup(dst, 80, Protocol::Tcp, ANY_SRC).is_none());
    assert!(r.lookup(dst, 443, Protocol::Udp, ANY_SRC).is_none());
}

#[test]
fn wildcard_fallback_respects_source_whitelist() {
    let mut r = one_svc_resolver_with_dns(
        r#"{"intercept.v1":{"protocols":["tcp"],"addresses":["*.svc.example.com"],
                "portRanges":[{"low":443,"high":443}],"allowedSourceAddresses":["192.168.0.0/16"]}}"#,
        seeded_dns(),
    );
    let assigned = r.dns_mut().lookup("app.svc.example.com").unwrap().ip;
    let dst = IpAddr::V4(assigned);
    assert_eq!(r.lookup(dst, 443, Protocol::Tcp, ip("192.168.1.1")).unwrap().service, "svc");
    assert!(r.lookup(dst, 443, Protocol::Tcp, ip("10.0.0.1")).is_none());
}

#[test]
fn proxy_service_returns_the_first_service_that_claims_the_domain() {
    let a = svc(
        "svc-a",
        r#"{"intercept.v1":{"protocols":["tcp"],"addresses":["*.svc.example.com"],
                "portRanges":[{"low":443,"high":443}],
                "dialOptions":{"connectTimeoutSeconds":7}}}"#,
    );
    let b = svc(
        "svc-b",
        r#"{"intercept.v1":{"protocols":["udp"],"addresses":["*.svc.example.com","*.other.org"],
                "portRanges":[{"low":53,"high":53}]}}"#,
    );
    let r = InterceptResolver::from_services_with_dns(&vec![a, b], seeded_dns());

    let m = r.proxy_service("svc.example.com").unwrap();
    assert_eq!(m.service, "svc-a");
    assert_eq!(m.dial_timeout, 7);

    let other = r.proxy_service("other.org").unwrap();
    assert_eq!(other.service, "svc-b");

    assert!(r.proxy_service("unclaimed.example.net").is_none());
    assert!(r.proxy_service("app.svc.example.com").is_none());
}

#[test]
fn literal_match_beats_wildcard_fallback() {
    let cidr_svc = svc(
        "cidr_svc",
        r#"{"intercept.v1":{"protocols":["tcp"],"addresses":["10.99.0.0/24"],"portRanges":[{"low":443,"high":443}]}}"#,
    );
    let wild_svc = svc(
        "wild_svc",
        r#"{"intercept.v1":{"protocols":["tcp"],"addresses":["*.svc.example.com"],"portRanges":[{"low":443,"high":443}]}}"#,
    );
    let mut r = InterceptResolver::from_services_with_dns(&vec![cidr_svc, wild_svc], seeded_dns());
    let assigned = r.dns_mut().lookup("app.svc.example.com").unwrap().ip;
    let hit = r.lookup(IpAddr::V4(assigned), 443, Protocol::Tcp, ANY_SRC).unwrap();
    assert_eq!(hit.service, "cidr_svc");
}

#[test]
fn wildcard_suffix_precedence_specific_and_general() {
    let specific = svc(
        "specific",
        r#"{"intercept.v1":{"protocols":["tcp"],"addresses":["*.sub.example.com"],"portRanges":[{"low":443,"high":443}]}}"#,
    );
    let general = svc(
        "general",
        r#"{"intercept.v1":{"protocols":["tcp"],"addresses":["*.example.com"],"portRanges":[{"low":443,"high":443}]}}"#,
    );
    let mut r = InterceptResolver::from_services_with_dns(&vec![specific, general], seeded_dns());

    let ip_sub = r.dns_mut().lookup("a.sub.example.com").unwrap().ip;
    assert_eq!(
        r.lookup(IpAddr::V4(ip_sub), 443, Protocol::Tcp, ANY_SRC).unwrap().service,
        "specific",
    );

    let ip_top = r.dns_mut().lookup("b.example.com").unwrap().ip;
    assert_eq!(
        r.lookup(IpAddr::V4(ip_top), 443, Protocol::Tcp, ANY_SRC).unwrap().service,
        "general",
    );
}

#[test]
fn wildcard_fallback_ignores_v6_unassigned_and_reserved() {
    let mut dns = seeded_dns();
    dns.reserve(v4("10.99.0.1"));
    let mut r = one_svc_resolver_with_dns(
        r#"{"intercept.v1":{"protocols":["tcp"],"addresses":["*.svc.example.com"],
                "portRanges":[{"low":443,"high":443}]}}"#,
        dns,
    );

    let _assigned = r.dns_mut().lookup("app.svc.example.com").unwrap().ip;
    assert!(r.lookup(ip("::1"), 443, Protocol::Tcp, ANY_SRC).is_none());
    assert!(r.lookup(ip("10.99.0.200"), 443, Protocol::Tcp, ANY_SRC).is_none());
    assert!(r.lookup(ip("10.99.0.1"), 443, Protocol::Tcp, ANY_SRC).is_none());
}

#[test]
fn reserved_ip_does_not_dispatch_to_a_degenerate_star_dot_service() {
    let mut dns = seeded_dns();
    let reserved = ip("10.99.0.1");
    dns.reserve(v4("10.99.0.1"));
    let mut r = one_svc_resolver_with_dns(
        r#"{"intercept.v1":{"protocols":["tcp"],"addresses":["*."],
                "portRanges":[{"low":443,"high":443}]}}"#,
        dns,
    );

    let assigned = r.dns_mut().lookup("").unwrap();
    assert_ne!(IpAddr::V4(assigned.ip), reserved);

    assert!(r.lookup(reserved, 443, Protocol::Tcp, ANY_SRC).is_none());

    assert_eq!(
        r.lookup(IpAddr::V4(assigned.ip), 443, Protocol::Tcp, ANY_SRC).unwrap().service,
        "svc",
    );
}

#[test]
fn exact_hostname_ip_dispatches_to_its_own_service_not_the_wildcard() {
    let exact = svc(
        "exact",
        r#"{"intercept.v1":{"protocols":["tcp"],"addresses":["app.example.com"],"portRanges":[{"low":443,"high":443}]}}"#,
    );
    let wild = svc(
        "wild",
        r#"{"intercept.v1":{"protocols":["tcp"],"addresses":["*.example.com"],"portRanges":[{"low":443,"high":443}]}}"#,
    );
    let mut dns = seeded_dns();
    let exact_ip = match dns.register("app.example.com", "probe") {
        RegisterOutcome::Hostname(ip) => ip,
        other => panic!("{other:?}"),
    };

    let mut r = InterceptResolver::from_services_with_dns(&vec![exact, wild], seeded_dns());

    assert_eq!(
        r.lookup(IpAddr::V4(exact_ip), 443, Protocol::Tcp, ANY_SRC).unwrap().service,
        "exact",
    );

    let wild_ip = r.dns_mut().lookup("other.example.com").unwrap().ip;
    assert_ne!(wild_ip, exact_ip);
    assert_eq!(r.lookup(IpAddr::V4(wild_ip), 443, Protocol::Tcp, ANY_SRC).unwrap().service, "wild");
}

#[test]
fn suffix_matches_mirrors_ziti_address_match() {
    let we = |suffix: &str| WildcardEntry {
        suffix: suffix.to_string(),
        low_port: 0,
        high_port: 0,
        protocol: "tcp".into(),
        service: "s".into(),
        dial_timeout: 5,
        allowed_sources: None,
    };

    assert!(we("example.com").suffix_matches("example.com"));

    assert!(we("example.com").suffix_matches("sub.example.com"));
    assert!(we("example.com").suffix_matches("a.b.example.com"));

    assert!(!we("xample.com").suffix_matches("example.com"));
    assert!(!we("ample.com").suffix_matches("example.com"));

    assert!(!we("sub.example.com").suffix_matches("example.com"));
    assert!(!we("other.com").suffix_matches("example.com"));

    assert!(we("").suffix_matches(""));
    assert!(we("").suffix_matches("foo."));
    assert!(!we("").suffix_matches("example.com"));
}

#[test]
fn suffix_matches_differential_vs_ziti_address_match_c_oracle() {
    let we = |suffix: &str| WildcardEntry {
        suffix: suffix.to_string(),
        low_port: 0,
        high_port: 0,
        protocol: "tcp".into(),
        service: "s".into(),
        dial_timeout: 5,
        allowed_sources: None,
    };

    let ground_truth: &[(&str, &str, bool)] = &[
        ("example.com", "example.com", true),
        ("sub.example.com", "example.com", true),
        ("a.b.example.com", "example.com", true),
        ("sub.example.com", "sub.example.com", true),
        ("example.com", "sub.example.com", false),
        ("example.com", "xample.com", false),
        ("example.com", "ample.com", false),
        ("example.com", "other.com", false),
        ("com", "com", true),
        ("example.com", "com", true),
        ("foo.example.com", "foo.example.com", true),
        ("x.foo.example.com", "foo.example.com", true),
        ("foo.example.com", "oo.example.com", false),
        ("", "", true),
        ("foo.", "", true),
        ("example.com", "", false),
        ("", "example.com", false),
        ("a.example.com", "a.example.com", true),
        ("aa.example.com", "a.example.com", false),
    ];
    for (d, w, expected) in ground_truth {
        assert_eq!(we(w).suffix_matches(d), *expected);
    }
}

#[test]
fn star_without_immediate_dot_is_a_literal_hostname_not_a_domain() {
    let r = one_svc_resolver_with_dns(
        r#"{"intercept.v1":{"protocols":["tcp"],"addresses":["*foo.com"],
                "portRanges":[{"low":80,"high":80}]}}"#,
        seeded_dns(),
    );
    assert!(!r.is_empty());
    assert_eq!(r.lookup(ip("10.99.0.1"), 80, Protocol::Tcp, ANY_SRC).unwrap().service, "svc");
}

#[test]
fn two_services_with_distinct_hostnames_get_distinct_ips_and_dispatch_correctly() {
    let mut dns = seeded_dns();
    let ip_a = match dns.register("a.example.com", "probe") {
        RegisterOutcome::Hostname(ip) => ip,
        other => panic!("{other:?}"),
    };
    let ip_b = match dns.register("b.example.com", "probe") {
        RegisterOutcome::Hostname(ip) => ip,
        other => panic!("{other:?}"),
    };
    assert_ne!(ip_a, ip_b);

    let a = svc(
        "alpha",
        r#"{"intercept.v1":{"protocols":["tcp"],"addresses":["a.example.com"],"portRanges":[{"low":80,"high":80}]}}"#,
    );
    let b = svc(
        "beta",
        r#"{"intercept.v1":{"protocols":["tcp"],"addresses":["b.example.com"],"portRanges":[{"low":80,"high":80}]}}"#,
    );

    let r = InterceptResolver::from_services_with_dns(&vec![a, b], seeded_dns());

    assert_eq!(r.lookup(IpAddr::V4(ip_a), 80, Protocol::Tcp, ANY_SRC).unwrap().service, "alpha");
    assert_eq!(r.lookup(IpAddr::V4(ip_b), 80, Protocol::Tcp, ANY_SRC).unwrap().service, "beta");
}

#[test]
fn exact_hostname_skips_ips_reserved_before_wiring() {
    let mut dns = DnsMatcher::new();
    assert!(dns.seed_pool("10.99.0.0/24"));
    dns.reserve(v4("10.99.0.1"));
    let r = one_svc_resolver_with_dns(
        r#"{"intercept.v1":{"protocols":["tcp"],"addresses":["app.example.com"],
                "portRanges":[{"low":80,"high":80}]}}"#,
        dns,
    );
    assert!(r.lookup(ip("10.99.0.1"), 80, Protocol::Tcp, ANY_SRC).is_none());
    assert_eq!(r.lookup(ip("10.99.0.2"), 80, Protocol::Tcp, ANY_SRC).unwrap().service, "svc");
}
