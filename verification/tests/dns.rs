use ziti_intercept::addr::{IpAddr, SocketAddr};
use ziti_intercept::dispatch::{is_dns_server_datagram, is_dns_tcp};
use ziti_intercept::dns::{DnsMatcher, RegisterOutcome};
use ziti_intercept::dns_server::{
    dns_response, format_resp_answers, handle_query, parsed_query_parts, DnsAction, ProxyQuery,
    RespAnswer,
};
use ziti_intercept::json::emit_dns_message_json;

const DNS_SRV_IP: u32 = 0x6440_0002;

fn ip4(a: u8, b: u8, c: u8, d: u8) -> u32 {
    u32::from_be_bytes([a, b, c, d])
}

fn v4(a: u8, b: u8, c: u8, d: u8, port: u16) -> SocketAddr {
    SocketAddr { ip: IpAddr::V4(ip4(a, b, c, d)), port }
}

fn query(id: u16, flags: u16, name: &str, qtype: u16) -> Vec<u8> {
    let mut pkt = Vec::new();
    pkt.extend_from_slice(&id.to_be_bytes());
    pkt.extend_from_slice(&flags.to_be_bytes());
    pkt.extend_from_slice(&[0, 1, 0, 0, 0, 0, 0, 0]);
    for label in name.split('.') {
        pkt.push(u8::try_from(label.len()).unwrap());
        pkt.extend_from_slice(label.as_bytes());
    }
    pkt.push(0);
    pkt.extend_from_slice(&qtype.to_be_bytes());
    pkt.extend_from_slice(&1u16.to_be_bytes());
    pkt
}

fn dns_a_query(id: u16, name: &str) -> Vec<u8> {
    query(id, 0x0100, name, 1)
}

fn dns_matcher_with(addr: &str) -> DnsMatcher {
    let mut m = DnsMatcher::new();
    assert!(m.seed_pool("100.64.0.0/24"));
    m.reserve(ip4(100, 64, 0, 1));
    m.reserve(DNS_SRV_IP);
    assert!(!matches!(m.register(addr, "i"), RegisterOutcome::Rejected));
    m
}

fn answer_to(action: DnsAction) -> Vec<u8> {
    match action {
        DnsAction::Respond(bytes) => bytes,
        other => panic!("{other:?}"),
    }
}

#[test]
fn is_dns_server_datagram_matches_only_the_dns_addr_and_port_53() {
    let dns = v4(100, 64, 0, 2, 53);
    assert!(is_dns_server_datagram(dns, Some(DNS_SRV_IP)));
    assert!(!is_dns_server_datagram(v4(100, 64, 0, 2, 54), Some(DNS_SRV_IP)));
    assert!(!is_dns_server_datagram(v4(100, 64, 0, 3, 53), Some(DNS_SRV_IP)));
    assert!(!is_dns_server_datagram(dns, None));
}

#[test]
fn dns_tcp_dispatch_gate() {
    let dns_ip = ip4(100, 64, 0, 1);
    assert!(is_dns_tcp(v4(100, 64, 0, 1, 53), Some(dns_ip)));
    assert!(!is_dns_tcp(v4(100, 64, 0, 1, 53), None));
    assert!(!is_dns_tcp(v4(100, 64, 0, 1, 443), Some(dns_ip)));
    assert!(!is_dns_tcp(v4(100, 64, 0, 2, 53), Some(dns_ip)));
    assert!(!is_dns_tcp(SocketAddr { ip: IpAddr::V6(1), port: 53 }, Some(dns_ip)));
}

#[test]
fn dns_response_answers_registered_hostname_and_drops_malformed() {
    let mut m = dns_matcher_with("app.example.com");
    let resp = dns_response(&mut m, &dns_a_query(0x1234, "app.example.com")).unwrap();
    assert_eq!(resp[3] & 0x0f, 0);
    assert_eq!(u16::from_be_bytes([resp[6], resp[7]]), 1);
    let ip = &resp[resp.len() - 11 - 4..resp.len() - 11];
    assert_eq!(ip, &[100, 64, 0, 3]);

    let mut qr = dns_a_query(0x1235, "app.example.com");
    qr[2] |= 0x80;
    assert!(dns_response(&mut m, &qr).is_none());
}

#[test]
fn dns_response_refuses_unregistered_name() {
    let mut m = dns_matcher_with("app.example.com");
    let resp = dns_response(&mut m, &dns_a_query(1, "unknown.example.org")).unwrap();
    assert_eq!(resp[3] & 0x0f, 5);
}

#[test]
fn request_json_equals_dns_message_to_json_c_oracle() {
    let cases: &[(&str, Vec<u8>, &[u8])] = &[
        (
            "mx",
            query(0x1234, 0x0100, "mail.svc.example.com", 15),
            br#"{"status":0,"id":4660,"recursive":1,"question":[{"name":"mail.svc.example.com","type":15}]}"#,
        ),
        (
            "srv underscore, no recursion",
            query(0, 0, "_sip._tcp.example.com", 33),
            br#"{"status":0,"id":0,"recursive":0,"question":[{"name":"_sip._tcp.example.com","type":33}]}"#,
        ),
        (
            "case is kept",
            query(0xffff, 0x0100, "MiXeD.Example.COM", 16),
            br#"{"status":0,"id":65535,"recursive":1,"question":[{"name":"MiXeD.Example.COM","type":16}]}"#,
        ),
        (
            "any",
            query(7, 0x0100, "example.com", 255),
            br#"{"status":0,"id":7,"recursive":1,"question":[{"name":"example.com","type":255}]}"#,
        ),
        (
            "quote, backslash, tab, control",
            query(1, 0x0100, "a\"b\\c\td\u{1}e\u{1f}", 15),
            br#"{"status":0,"id":1,"recursive":1,"question":[{"name":"a\"b\\c\td\u0001e\u001f","type":15}]}"#,
        ),
        (
            "newline, backspace, return",
            query(1, 0x0100, "a\nb\u{8}c\rd", 15),
            br#"{"status":0,"id":1,"recursive":1,"question":[{"name":"a\nb\bc\rd","type":15}]}"#,
        ),
        (
            "cut at the first zero",
            query(2, 0x0100, "ab\0cd.example", 15),
            br#"{"status":0,"id":2,"recursive":1,"question":[{"name":"ab","type":15}]}"#,
        ),
    ];
    for (name, packet, json) in cases {
        let q = parsed_query_parts(packet).unwrap();
        let got = emit_dns_message_json(q.id, q.recursive, &q.name[..q.name_strlen], q.qtype);
        assert_eq!(got, *json, "{name}");
    }
    let mut root = vec![0, 9, 1, 0, 0, 1, 0, 0, 0, 0, 0, 0];
    root.extend_from_slice(&[0, 0, 15, 0, 1]);
    let q = parsed_query_parts(&root).unwrap();
    assert_eq!(
        emit_dns_message_json(q.id, q.recursive, &q.name[..q.name_strlen], q.qtype),
        br#"{"status":0,"id":9,"recursive":1,"question":[{"name":"","type":15}]}"#
    );
    let mut raw = vec![0, 9, 1, 0, 0, 1, 0, 0, 0, 0, 0, 0];
    raw.extend_from_slice(&[2, 0xff, b'x', 0, 0, 15, 0, 1]);
    let q = parsed_query_parts(&raw).unwrap();
    let json = emit_dns_message_json(q.id, q.recursive, &q.name[..q.name_strlen], q.qtype);
    assert!(json.windows(2).any(|w| w == [0xff, b'x']));
}

#[test]
fn a_query_is_parsed_part_by_part() {
    let q = parsed_query_parts(&query(0xabcd, 0x0100, "a.bc.def", 28)).unwrap();
    assert_eq!(q.id, 0xabcd);
    assert!(q.recursive);
    assert_eq!(q.name, b"a.bc.def");
    assert_eq!(q.qtype, 28);
    assert_eq!(q.name_strlen, 8);
    assert!(!parsed_query_parts(&query(1, 0, "a", 1)).unwrap().recursive);
}

#[test]
fn a_message_without_a_whole_question_is_no_query() {
    let whole = dns_a_query(1, "app.example.com");
    for n in 0..whole.len() {
        assert!(parsed_query_parts(&whole[..n]).is_none(), "{n}");
    }
    let mut none = whole.clone();
    none[5] = 0;
    assert!(parsed_query_parts(&none).is_none());
    let mut pointer = whole;
    pointer[12] = 0xc0;
    assert!(parsed_query_parts(&pointer).is_none());
}

#[test]
fn an_answer_is_written_byte_by_byte() {
    let mut m = dns_matcher_with("a.test");
    let resp = dns_response(&mut m, &dns_a_query(0x0102, "a.test")).unwrap();
    let mut want = vec![1, 2, 0x81, 0, 0, 1, 0, 1, 0, 0, 0, 1];
    want.extend_from_slice(&[1, b'a', 4, b't', b'e', b's', b't', 0, 0, 1, 0, 1]);
    want.extend_from_slice(&[0xc0, 0x0c, 0, 1, 0, 1, 0, 0, 0, 60, 0, 4, 100, 64, 0, 3]);
    want.extend_from_slice(&[0, 0, 0x29, 2, 0, 0, 0, 0, 0, 0, 0]);
    assert_eq!(resp, want);
}

#[test]
fn an_ipv6_question_for_a_known_name_has_no_records() {
    let mut m = dns_matcher_with("app.example.com");
    let resp = dns_response(&mut m, &query(3, 0x0100, "app.example.com", 28)).unwrap();
    assert_eq!(resp[3] & 0x0f, 0);
    assert_eq!(&resp[6..8], &[0, 0]);
}

#[test]
fn a_name_under_a_domain_gets_an_address_that_stays() {
    let mut m = dns_matcher_with("*.example.com");
    let first = dns_response(&mut m, &dns_a_query(1, "x.example.com")).unwrap();
    let again = dns_response(&mut m, &dns_a_query(1, "X.Example.Com")).unwrap();
    assert_eq!(first[first.len() - 15..], again[again.len() - 15..]);
    let ip = u32::from_be_bytes(first[first.len() - 15..first.len() - 11].try_into().unwrap());
    assert_eq!(m.reverse_lookup(ip), Some("x.example.com"));
}

#[test]
fn an_unknown_name_goes_upstream_only_if_it_desires_recursion() {
    let mut m = dns_matcher_with("app.example.com");
    let desired = dns_a_query(4, "unknown.example.org");
    match handle_query(&mut m, &desired, true, true) {
        DnsAction::ForwardUpstream { on_send_failure } => {
            assert_eq!(on_send_failure[3], 0x80 | 5);
            assert_eq!(&on_send_failure[..2], &[0, 4]);
        }
        other => panic!("{other:?}"),
    }
    let undesired = query(4, 0, "unknown.example.org", 1);
    assert_eq!(answer_to(handle_query(&mut m, &undesired, true, true))[3], 0x80 | 5);
    assert_eq!(answer_to(handle_query(&mut m, &desired, false, true))[3], 5);
}

#[test]
fn a_record_under_a_domain_is_asked_of_the_hosting_endpoint() {
    let mut m = dns_matcher_with("*.svc.example.com");
    for qtype in [15, 16, 33] {
        let packet = query(0x2001, 0x0100, "Mail.svc.example.com", qtype);
        match handle_query(&mut m, &packet, false, true) {
            DnsAction::ForwardProxy(q) => assert_eq!(
                q,
                ProxyQuery {
                    domain: "svc.example.com".to_string(),
                    id: 0x2001,
                    name_strlen: "Mail.svc.example.com".len(),
                    json: emit_dns_message_json(0x2001, true, b"Mail.svc.example.com", qtype),
                }
            ),
            other => panic!("{other:?}"),
        }
        assert_eq!(answer_to(handle_query(&mut m, &packet, false, false))[3], 2);
    }
    let ptr = query(0x2002, 0x0100, "mail.svc.example.com", 12);
    match handle_query(&mut m, &ptr, false, true) {
        DnsAction::RespondAndConnectProxy { response, domain } => {
            assert_eq!(response[3], 4);
            assert_eq!(domain, "svc.example.com");
        }
        other => panic!("{other:?}"),
    }
    assert_eq!(answer_to(handle_query(&mut m, &ptr, false, false))[3], 4);
    let outside = query(0x2003, 0x0100, "mail.example.org", 15);
    assert_eq!(answer_to(handle_query(&mut m, &outside, false, true))[3], 5);
}

#[test]
fn a_name_that_is_no_text_is_not_known() {
    let mut m = dns_matcher_with("*.example.com");
    let mut packet = vec![0, 9, 1, 0, 0, 1, 0, 0, 0, 0, 0, 0];
    packet.extend_from_slice(&[1, 0xff, 7]);
    packet.extend_from_slice(b"example");
    packet.extend_from_slice(&[3, b'c', b'o', b'm', 0, 0, 1, 0, 1]);
    assert_eq!(dns_response(&mut m, &packet).unwrap()[3], 5);
}

#[test]
fn records_are_written_by_their_kind() {
    let packet = dns_a_query(0x0102, "a.test");
    let record = |atype: i64, data: &str| RespAnswer {
        atype,
        ttl: 300,
        priority: 10,
        weight: 20,
        port: 443,
        data: data.to_string(),
    };
    let body = |answers: Option<Vec<RespAnswer>>| {
        let bytes = format_resp_answers(&packet, 6, 0, &answers, 0x0a00_0001, false);
        bytes[24..bytes.len() - 11].to_vec()
    };
    let head = |atype: u8, len: u8| vec![0xc0, 0x0c, 0, atype, 0, 1, 0, 0, 1, 0x2c, 0, len];
    let with = |atype: u8, rdata: &[u8]| {
        let mut v = head(atype, u8::try_from(rdata.len()).unwrap());
        v.extend_from_slice(rdata);
        v
    };
    assert!(body(None).is_empty());
    assert!(body(Some(vec![])).is_empty());
    assert_eq!(body(Some(vec![record(1, "")])), with(1, &[10, 0, 0, 1]));
    assert_eq!(body(Some(vec![record(16, "hi")])), with(16, &[2, b'h', b'i']));
    assert_eq!(
        body(Some(vec![record(15, "m.x")])),
        with(15, &[0, 10, 1, b'm', 1, b'x', 0])
    );
    assert_eq!(
        body(Some(vec![record(33, "m.x")])),
        with(33, &[0, 10, 0, 20, 1, 0xbb, 1, b'm', 1, b'x', 0])
    );
    assert_eq!(body(Some(vec![record(12, "m.x")])), with(12, &[]));
    let two = body(Some(vec![record(16, "hi"), record(1, "")]));
    assert_eq!(two.len(), with(16, &[2, b'h', b'i']).len() + with(1, &[10, 0, 0, 1]).len());
}
