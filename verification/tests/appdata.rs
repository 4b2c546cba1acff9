use std::collections::BTreeMap;

use ziti_intercept::addr::{IpAddr, SocketAddr};
use ziti_intercept::json::{intercept_tcp_appdata, intercept_udp_appdata};

const FD00_1: u128 = 0xfd00_0000_0000_0000_0000_0000_0000_0001;

fn parse(appdata: &[u8]) -> BTreeMap<String, String> {
    serde_json::from_slice(appdata).unwrap()
}

fn v4(a: u8, b: u8, c: u8, d: u8, port: u16) -> SocketAddr {
    SocketAddr { ip: IpAddr::V4(u32::from_be_bytes([a, b, c, d])), port }
}

#[test]
fn intercept_tcp_appdata_matches_oracle_get_app_info_ip_path_v4() {
    let map = parse(&intercept_tcp_appdata(v4(100, 64, 0, 7, 19009), None));

    let mut expected = BTreeMap::new();
    expected.insert("dst_protocol".to_string(), "tcp".to_string());
    expected.insert("dst_ip".to_string(), "100.64.0.7".to_string());
    expected.insert("dst_port".to_string(), "19009".to_string());
    assert_eq!(map, expected);

    assert!(!map.contains_key("dst_hostname"));
    assert!(!map.contains_key("source_addr"));
}

#[test]
fn intercept_tcp_appdata_emits_dst_hostname_when_reverse_lookup_knows_it() {
    let dst = v4(100, 64, 0, 3, 19009);
    let map = parse(&intercept_tcp_appdata(dst, Some("app.wild.ziti.test")));

    let mut expected = BTreeMap::new();
    expected.insert("dst_protocol".to_string(), "tcp".to_string());
    expected.insert("dst_ip".to_string(), "100.64.0.3".to_string());
    expected.insert("dst_port".to_string(), "19009".to_string());
    expected.insert("dst_hostname".to_string(), "app.wild.ziti.test".to_string());
    assert_eq!(map, expected);

    let empty = parse(&intercept_tcp_appdata(dst, Some("")));
    assert!(!empty.contains_key("dst_hostname"));
    assert_eq!(empty.len(), 3);
}

#[test]
fn intercept_tcp_appdata_ipv6_canonical_form() {
    let dst = SocketAddr { ip: IpAddr::V6(FD00_1), port: 443 };
    let map = parse(&intercept_tcp_appdata(dst, None));

    assert_eq!(map.get("dst_protocol").map(String::as_str), Some("tcp"));
    assert_eq!(map.get("dst_ip").map(String::as_str), Some("fd00::1"));
    assert_eq!(map.get("dst_port").map(String::as_str), Some("443"));
    assert_eq!(map.len(), 3);
}

#[test]
fn intercept_udp_appdata_matches_oracle_get_app_info_ip_path_v4() {
    let map = parse(&intercept_udp_appdata(v4(100, 64, 0, 7, 53), None));

    let mut expected = BTreeMap::new();
    expected.insert("dst_protocol".to_string(), "udp".to_string());
    expected.insert("dst_ip".to_string(), "100.64.0.7".to_string());
    expected.insert("dst_port".to_string(), "53".to_string());
    assert_eq!(map, expected);

    assert!(!map.contains_key("dst_hostname"));
    assert!(!map.contains_key("source_addr"));
}

#[test]
fn intercept_udp_appdata_emits_dst_hostname_when_reverse_lookup_knows_it() {
    let dst = v4(100, 64, 0, 3, 5353);
    let map = parse(&intercept_udp_appdata(dst, Some("app.wild.ziti.test")));

    let mut expected = BTreeMap::new();
    expected.insert("dst_protocol".to_string(), "udp".to_string());
    expected.insert("dst_ip".to_string(), "100.64.0.3".to_string());
    expected.insert("dst_port".to_string(), "5353".to_string());
    expected.insert("dst_hostname".to_string(), "app.wild.ziti.test".to_string());
    assert_eq!(map, expected);

    let empty = parse(&intercept_udp_appdata(dst, Some("")));
    assert!(!empty.contains_key("dst_hostname"));
    assert_eq!(empty.len(), 3);
}

#[test]
fn intercept_udp_appdata_ipv6_canonical_form() {
    let dst = SocketAddr { ip: IpAddr::V6(FD00_1), port: 443 };
    let map = parse(&intercept_udp_appdata(dst, None));

    assert_eq!(map.get("dst_protocol").map(String::as_str), Some("udp"));
    assert_eq!(map.get("dst_ip").map(String::as_str), Some("fd00::1"));
    assert_eq!(map.get("dst_port").map(String::as_str), Some("443"));
    assert_eq!(map.len(), 3);
}

#[test]
fn appdata_is_written_with_its_keys_in_order() {
    assert_eq!(
        intercept_tcp_appdata(v4(1, 2, 3, 4, 80), Some("a.test")),
        br#"{"dst_hostname":"a.test","dst_ip":"1.2.3.4","dst_port":"80","dst_protocol":"tcp"}"#
    );
    assert_eq!(
        intercept_udp_appdata(v4(255, 0, 10, 9, 65535), None),
        br#"{"dst_ip":"255.0.10.9","dst_port":"65535","dst_protocol":"udp"}"#
    );
}
