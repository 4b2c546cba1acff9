use ziti_intercept::addr::{make_net, parse_ip, parse_ip_or_cidr, IpAddr, IpNet};
use ziti_intercept::dns::{DnsMatcher, RegisterOutcome};
use ziti_intercept::json::{escape_json_c, push_decimal, push_ip};
use ziti_intercept::names::{check_name, is_under, is_wildcard, Name};
use ziti_intercept::table::Table;

const BASE: u32 = 0x6440_0000;

fn seeded(cidr: &str) -> DnsMatcher {
    let mut dns = DnsMatcher::new();
    assert!(dns.seed_pool(cidr));
    dns
}

fn escaped(s: &[u8]) -> Vec<u8> {
    let mut out = Vec::new();
    escape_json_c(&mut out, s);
    out
}

#[test]
fn a_host_is_what_its_address_stands_for() {
    let mut dns = seeded("100.64.0.0/24");
    assert_eq!(dns.register("Host.Ziti", "a"), RegisterOutcome::Hostname(BASE + 1));
    assert_eq!(dns.reverse_lookup(BASE + 1), Some("host.ziti"));
    assert_eq!(dns.reverse_lookup_domain(BASE + 1), None);
    assert_eq!(dns.lookup("HOST.ziti").map(|m| m.ip), Some(BASE + 1));
    assert_eq!(dns.lookup("other.ziti"), None);
    assert_eq!(dns.reverse_lookup(BASE + 2), None);
}

#[test]
fn a_name_under_a_domain_is_found_in_the_closest_one() {
    let mut dns = seeded("100.64.0.0/24");
    assert_eq!(dns.register("*.ziti", "wide"), RegisterOutcome::Domain);
    assert_eq!(dns.register("*.corp.ziti", "narrow"), RegisterOutcome::Domain);
    assert_eq!(dns.matched_domain("db.corp.ziti"), Some("corp.ziti".to_string()));
    assert_eq!(dns.matched_domain("corp.ziti"), Some("corp.ziti".to_string()));
    assert_eq!(dns.matched_domain("web.ziti"), Some("ziti".to_string()));
    assert_eq!(dns.matched_domain("webziti"), None);
    assert!(dns.matches_domain("web.ziti"));
    assert!(!dns.matches_domain("web.example"));
    let ip = dns.lookup("db.corp.ziti").unwrap().ip;
    assert_eq!(dns.reverse_lookup_domain(ip), Some("corp.ziti"));
    assert_eq!(dns.lookup("db.corp.ziti").unwrap().ip, ip);
}

#[test]
fn a_shared_host_keeps_its_address_until_its_last_claim_goes() {
    let mut dns = seeded("100.64.0.0/24");
    let first = dns.register("h.ziti", "a");
    assert_eq!(dns.register("h.ziti", "b"), first);
    dns.deregister_intercept("a");
    assert_eq!(dns.reverse_lookup(BASE + 1), Some("h.ziti"));
    dns.deregister_intercept("b");
    assert_eq!(dns.reverse_lookup(BASE + 1), None);
    assert_eq!(dns.lookup("h.ziti"), None);
}

#[test]
fn every_address_of_the_pool_but_its_ends_is_handed_out() {
    let mut dns = seeded("100.64.0.0/29");
    dns.reserve(BASE + 3);
    let mut given = Vec::new();
    for name in ["a", "b", "c", "d", "e"] {
        match dns.register(name, "s") {
            RegisterOutcome::Hostname(ip) => given.push(ip),
            other => panic!("{other:?}"),
        }
    }
    assert_eq!(given, vec![BASE + 1, BASE + 2, BASE + 4, BASE + 5, BASE + 6]);
    assert_eq!(dns.register("f", "s"), RegisterOutcome::IpUnavailable);
    assert_eq!(dns.register("c", "t"), RegisterOutcome::Hostname(BASE + 4));
    dns.deregister_intercept("s");
    assert_eq!(dns.register("f", "s"), RegisterOutcome::Hostname(BASE + 1));
}

#[test]
fn a_pool_without_room_gives_nothing() {
    for cidr in ["100.64.0.0/31", "100.64.0.0/32"] {
        let mut dns = seeded(cidr);
        assert_eq!(dns.register("h", "s"), RegisterOutcome::IpUnavailable);
    }
    let mut dns = DnsMatcher::new();
    assert_eq!(dns.register("h", "s"), RegisterOutcome::IpUnavailable);
    assert!(!dns.seed_pool("fd00::/64"));
    assert!(!dns.seed_pool("pool"));
}

#[test]
fn a_name_that_is_too_long_is_rejected() {
    let mut dns = seeded("100.64.0.0/24");
    let fits = "a".repeat(255);
    let long = "a".repeat(256);
    assert_eq!(dns.register(&fits, "s"), RegisterOutcome::Hostname(BASE + 1));
    assert_eq!(dns.register(&long, "s"), RegisterOutcome::Rejected);
    assert_eq!(dns.register(&format!("*.{long}"), "s"), RegisterOutcome::Rejected);
    assert_eq!(dns.register(&format!("*.{fits}"), "s"), RegisterOutcome::Domain);
    assert_eq!(DnsMatcher::wildcard_suffix(&format!("*.{long}")), None);
    assert_eq!(DnsMatcher::wildcard_suffix("*.Corp.Ziti"), Some("corp.ziti".to_string()));
    assert_eq!(DnsMatcher::wildcard_suffix("corp.ziti"), None);
}

#[test]
fn names_are_told_apart_and_put_in_lower_case() {
    assert!(is_wildcard("*.ziti"));
    assert!(!is_wildcard("*ziti"));
    assert!(!is_wildcard("*"));
    assert!(matches!(check_name("WeB.Ziti"), Some(Name::Host(h)) if h == "web.ziti"));
    assert!(matches!(check_name("*.ZITI"), Some(Name::Domain(d)) if d == "ziti"));
    assert!(is_under("a.b.c", "b.c"));
    assert!(is_under("b.c", "b.c"));
    assert!(!is_under("ab.c", "b.c"));
    assert!(!is_under("c", "b.c"));
}

#[test]
fn escaped_bytes_can_be_read_back() {
    assert_eq!(escaped(b"a\"b\\c"), b"a\\\"b\\\\c".to_vec());
    assert_eq!(escaped(b"\n\r\t\x08"), b"\\n\\r\\t\\b".to_vec());
    assert_eq!(escaped(b"\x00\x1f"), b"\\u0000\\u001f".to_vec());
    assert_eq!(escaped(&[0x20, 0x7f, 0xff]), vec![0x20, 0x7f, 0xff]);
    assert_ne!(escaped(b"\n"), escaped(b"\\n"));
    assert_ne!(escaped(b"\x01"), escaped(b"\\u0001"));
}

#[test]
fn an_escaped_string_is_a_json_literal_of_the_string() {
    let text = "a\"b\\c\n\r\t\u{8}\u{0}\u{1f}/\u{7f}\u{e9}\u{20ac}\u{1f600}";
    let mut literal = vec![b'"'];
    escape_json_c(&mut literal, text.as_bytes());
    literal.push(b'"');
    let read: serde_json::Value = serde_json::from_slice(&literal).unwrap();
    assert_eq!(read, serde_json::Value::String(text.to_string()));
}

#[test]
fn numbers_and_addresses_are_written_out() {
    let mut out = Vec::new();
    push_decimal(&mut out, 0);
    push_decimal(&mut out, 65535);
    assert_eq!(out, b"065535".to_vec());
    let mut out = Vec::new();
    push_ip(&mut out, IpAddr::V4(0x0a00_00ff));
    assert_eq!(out, b"10.0.0.255".to_vec());
    let mut out = Vec::new();
    push_ip(&mut out, IpAddr::V6(1));
    assert_eq!(out, b"::1".to_vec());
}

#[test]
fn addresses_and_networks_are_read() {
    assert_eq!(parse_ip("10.0.0.1"), Some(IpAddr::V4(0x0a00_0001)));
    assert_eq!(parse_ip("::1"), Some(IpAddr::V6(1)));
    assert_eq!(parse_ip("host"), None);
    assert_eq!(parse_ip("255.255.255.255"), Some(IpAddr::V4(u32::MAX)));
    for text in ["10.0.0.01", "10.0.0.256", "10.0.0", "10.0.0.1.2", "10.0.0.1 ", "+1.0.0.0", ""] {
        assert_eq!(parse_ip(text), None);
    }
    assert_eq!(
        parse_ip_or_cidr("10.0.0.7/8"),
        Some(IpNet::V4 { addr: 0x0a00_0007, prefix: 8 })
    );
    assert_eq!(parse_ip_or_cidr("10.0.0.0/33"), None);
    assert_eq!(parse_ip_or_cidr("10.0.0.0/08"), None);
    assert_eq!(parse_ip_or_cidr("10.0.0.0/+8"), None);
    assert_eq!(parse_ip_or_cidr("10.0.0.0/"), None);
    assert_eq!(parse_ip_or_cidr("::/0"), Some(IpNet::V6 { addr: 0, prefix: 0 }));
    assert_eq!(parse_ip_or_cidr("::/129"), None);
    assert_eq!(make_net(IpAddr::V4(7), 33), None);
}

#[test]
fn a_network_has_the_addresses_of_its_block_and_family() {
    let net = parse_ip_or_cidr("10.1.2.3/24").unwrap();
    assert!(net.contains(&IpAddr::V4(0x0a01_0200)));
    assert!(net.contains(&IpAddr::V4(0x0a01_02ff)));
    assert!(!net.contains(&IpAddr::V4(0x0a01_0300)));
    assert!(!net.contains(&IpAddr::V6(0x0a01_0203)));
    let all = parse_ip_or_cidr("0.0.0.0/0").unwrap();
    assert!(all.contains(&IpAddr::V4(u32::MAX)));
    let host = IpNet::host(IpAddr::V6(5));
    assert!(host.contains(&IpAddr::V6(5)));
    assert!(!host.contains(&IpAddr::V6(4)));
}

#[test]
fn a_table_keeps_one_value_for_each_key() {
    let mut t: Table<u16, u32> = Table::new();
    assert_eq!(t.len(), 0);
    t.insert(1, 10);
    t.insert(2, 20);
    t.insert(1, 11);
    assert_eq!(t.len(), 2);
    assert_eq!(t.get(&1), Some(&11));
    assert!(!t.contains(&3));
    assert_eq!(t.remove(&1), Some(11));
    assert_eq!(t.remove(&1), None);
    assert_eq!(t.drain(), vec![(2, 20)]);
    assert_eq!(t.len(), 0);
}
