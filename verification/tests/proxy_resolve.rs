use ziti_intercept::addr::{IpAddr, SocketAddr};
use ziti_intercept::dns_server::{ProxyQuery, RespAnswer, DNS_SERVFAIL};
use ziti_intercept::proxy_conn::{ConnPhase, ProxyConn};
use ziti_intercept::proxy_resolve::{
    parse_peer_response, Forwarded, PeerResponse, ProxyDns, ProxyEvent, ProxyJob, ProxyReply,
    WireAnswer, WireMsg, WireQuestion, NANOS_PER_SEC, PROXY_PENDING_TIMEOUT, RESOLVE_APP_DATA,
};

const NOW: u64 = 1_000 * NANOS_PER_SEC;

fn pending_for(id: u16) -> (Vec<u8>, usize) {
    let mut pkt = Vec::new();
    pkt.extend_from_slice(&id.to_be_bytes());
    pkt.extend_from_slice(&0x0100u16.to_be_bytes());
    pkt.extend_from_slice(&[0, 1, 0, 0, 0, 0, 0, 0]);
    for lab in ["mail", "svc", "example", "com"] {
        pkt.push(u8::try_from(lab.len()).unwrap());
        pkt.extend_from_slice(lab.as_bytes());
    }
    pkt.push(0);
    pkt.extend_from_slice(&15u16.to_be_bytes());
    pkt.extend_from_slice(&1u16.to_be_bytes());
    let strlen = "mail.svc.example.com".len();
    (pkt, strlen)
}

fn addr(port: u16) -> SocketAddr {
    SocketAddr { ip: IpAddr::V4(0x6440_0002), port }
}

fn proxy_query(id: u16) -> ProxyQuery {
    ProxyQuery {
        domain: "svc.example.com".to_string(),
        id,
        name_strlen: "mail.svc.example.com".len(),
        json: b"{}".to_vec(),
    }
}

fn forward(proxy: &mut ProxyDns, service: Option<&str>, id: u16, ra: bool, now: u64) -> Forwarded {
    let (packet, _) = pending_for(id);
    proxy.handle_forward(service, proxy_query(id), packet, addr(53), addr(50000), ra, now)
}

fn insert_pending(proxy: &mut ProxyDns, id: u16) {
    assert!(matches!(forward(proxy, Some("svc"), id, true, NOW), Forwarded::Send { .. }));
}

fn mx(data: Option<&str>) -> WireAnswer {
    WireAnswer {
        atype: 15,
        ttl: 300,
        priority: 10,
        weight: 0,
        port: 0,
        name: String::new(),
        data: data.map(str::to_string),
    }
}

fn msg(status: i64, id: i64, answer: Option<Vec<WireAnswer>>) -> WireMsg {
    WireMsg {
        status,
        id,
        recursive: 0,
        question: vec![],
        answer,
        comment: String::new(),
    }
}

#[test]
fn write_failed_completes_pending_with_servfail_once() {
    let mut proxy = ProxyDns::new();
    insert_pending(&mut proxy, 0x1234);

    let ProxyReply { bytes, server_addr, client_addr } =
        proxy.on_event(ProxyEvent::WriteFailed(0x1234), true).unwrap();
    assert_eq!(bytes[3] & 0x0f, DNS_SERVFAIL);
    assert_eq!(bytes[3] & 0x80, 0x80);
    assert_eq!(&bytes[0..2], &[0x12, 0x34]);
    assert_eq!(server_addr, addr(53));
    assert_eq!(client_addr, addr(50000));

    assert!(proxy.on_event(ProxyEvent::WriteFailed(0x1234), true).is_none());
}

#[test]
fn data_completes_matching_pending_and_ignores_peer_status() {
    let mut proxy = ProxyDns::new();
    insert_pending(&mut proxy, 0x2001);

    let mut peer = msg(5, 8193, Some(vec![mx(Some("mx1.example.com"))]));
    peer.question.push(WireQuestion { name: "mail.svc.example.com".to_string(), atype: 15 });
    let reply = proxy.on_event(ProxyEvent::Data(Some(peer)), false).unwrap();
    assert_eq!(reply.bytes[3] & 0x0f, 0);
    assert_eq!(reply.bytes[3] & 0x80, 0);
    assert_eq!(u16::from_be_bytes([reply.bytes[6], reply.bytes[7]]), 1);

    let spurious = msg(0, 4660, Some(vec![]));
    assert!(proxy.on_event(ProxyEvent::Data(Some(spurious)), false).is_none());
}

#[test]
fn malformed_chunk_drops_without_touching_pendings() {
    let mut proxy = ProxyDns::new();
    insert_pending(&mut proxy, 0x3001);
    assert!(proxy.on_event(ProxyEvent::Data(None), true).is_none());
    assert!(proxy.is_pending(0x3001));
}

#[test]
fn evict_expired_drops_stale_pendings() {
    let mut proxy = ProxyDns::new();
    let stale = NOW - PROXY_PENDING_TIMEOUT - NANOS_PER_SEC;
    assert!(matches!(
        forward(&mut proxy, Some("svc"), 0x4001, true, stale),
        Forwarded::Send { .. }
    ));
    insert_pending(&mut proxy, 0x4002);

    proxy.evict_expired(NOW);
    assert!(!proxy.is_pending(0x4001));
    assert!(proxy.is_pending(0x4002));
}

#[test]
fn duplicate_in_flight_id_is_dropped_silently() {
    let mut proxy = ProxyDns::new();
    insert_pending(&mut proxy, 0x5001);
    proxy.conn_closed("svc.example.com", 0);
    proxy.evict_expired(NOW);
    assert_eq!(forward(&mut proxy, Some("svc"), 0x5001, true, NOW), Forwarded::Duplicate);
    assert_eq!(proxy.conns_len(), 0);
}

#[test]
fn live_handle_evicts_a_conn_whose_service_no_longer_owns_the_domain() {
    let mut proxy = ProxyDns::new();
    let (first_marker, fresh) = proxy.live_handle("svc-a", "svc.example.com");
    assert!(fresh);
    let (second_marker, fresh) = proxy.live_handle("svc-b", "svc.example.com");
    assert!(fresh);
    assert_ne!(second_marker, first_marker);
    let (third_marker, fresh) = proxy.live_handle("svc-b", "svc.example.com");
    assert!(!fresh);
    assert_eq!(third_marker, second_marker);
}

#[test]
fn missing_service_answers_servfail_synchronously() {
    let mut proxy = ProxyDns::new();
    match forward(&mut proxy, None, 0x6001, false, NOW) {
        Forwarded::Reply(out) => assert_eq!(out[3] & 0x0f, DNS_SERVFAIL),
        other => panic!("{other:?}"),
    }
    assert_eq!(proxy.pending_len(), 0);
}

#[test]
fn dial_failure_completes_pending_with_servfail_via_events() {
    let mut proxy = ProxyDns::new();
    let (conn, domain, job) = match forward(&mut proxy, Some("unreachable-svc"), 0x7001, true, NOW) {
        Forwarded::Send { conn, dial: true, domain, job } => (conn, domain, job),
        other => panic!("{other:?}"),
    };
    let mut task = ProxyConn::new();
    assert!(task.queue(job).is_none());

    let mut events = task.ended();
    assert_eq!(task.phase(), ConnPhase::Closed);
    proxy.conn_closed(&domain, conn);
    assert_eq!(events.len(), 1);
    let reply = proxy.on_event(events.remove(0), true).unwrap();
    assert_eq!(reply.bytes[3] & 0x0f, DNS_SERVFAIL);
    assert_eq!(reply.server_addr, addr(53));
    assert_eq!(reply.client_addr, addr(50000));

    let (again, dial) = proxy.live_handle("unreachable-svc", &domain);
    assert!(dial);
    assert_ne!(again, conn);
}

#[test]
fn a_record_without_the_data_it_needs_drops_the_whole_reply() {
    assert_eq!(parse_peer_response(msg(0, 1, Some(vec![mx(Some("a")), mx(None)]))), None);
    for atype in [15, 16, 33] {
        let mut a = mx(None);
        a.atype = atype;
        assert_eq!(parse_peer_response(msg(0, 1, Some(vec![a]))), None);
    }
    let mut a = mx(None);
    a.atype = 1;
    assert_eq!(
        parse_peer_response(msg(0, 1, Some(vec![a]))),
        Some(PeerResponse {
            id: 1,
            answers: Some(vec![RespAnswer {
                atype: 1,
                ttl: 300,
                priority: 10,
                weight: 0,
                port: 0,
                data: String::new(),
            }]),
        })
    );
}

#[test]
fn a_reply_without_records_differs_from_one_with_an_empty_list() {
    assert_eq!(parse_peer_response(msg(0, 7, None)), Some(PeerResponse { id: 7, answers: None }));
    assert_eq!(
        parse_peer_response(msg(0, 7, Some(vec![]))),
        Some(PeerResponse { id: 7, answers: Some(vec![]) })
    );
}

#[test]
fn the_number_of_a_reply_is_cut_to_sixteen_bits() {
    assert_eq!(parse_peer_response(msg(0, 0x1_2345, None)).unwrap().id, 0x2345);
    assert_eq!(parse_peer_response(msg(0, -1, None)).unwrap().id, 0xffff);
}

#[test]
fn a_question_waits_to_the_last_instant_of_its_time() {
    let mut proxy = ProxyDns::new();
    insert_pending(&mut proxy, 1);
    proxy.evict_expired(NOW + PROXY_PENDING_TIMEOUT);
    assert!(proxy.is_pending(1));
    proxy.evict_expired(NOW + PROXY_PENDING_TIMEOUT + 1);
    assert!(!proxy.is_pending(1));
}

#[test]
fn an_open_connection_carries_the_next_question() {
    let mut proxy = ProxyDns::new();
    let first = match forward(&mut proxy, Some("svc"), 1, true, NOW) {
        Forwarded::Send { conn, dial: true, .. } => conn,
        other => panic!("{other:?}"),
    };
    match forward(&mut proxy, Some("svc"), 2, true, NOW) {
        Forwarded::Send { conn, dial, domain, job } => {
            assert_eq!(conn, first);
            assert!(!dial);
            assert_eq!(domain, "svc.example.com");
            assert_eq!(job, ProxyJob { id: 2, json: b"{}".to_vec() });
        }
        other => panic!("{other:?}"),
    }
    let replaced = proxy.replace_handle("svc", "svc.example.com");
    assert_ne!(replaced, first);
}

#[test]
fn a_connection_writes_in_order_and_fails_what_it_did_not_write() {
    let job = |id: u16| ProxyJob { id, json: vec![id as u8] };
    let mut task = ProxyConn::new();
    for id in 1..=4 {
        assert!(task.queue(job(id)).is_none());
    }
    task.dialled();
    assert_eq!(task.next_job(), Some(job(1)));
    assert_eq!(task.phase(), ConnPhase::Writing(1));
    task.written();
    assert_eq!(task.next_job(), Some(job(2)));
    assert_eq!(
        task.ended(),
        vec![
            ProxyEvent::WriteFailed(2),
            ProxyEvent::WriteFailed(3),
            ProxyEvent::WriteFailed(4)
        ]
    );
    assert_eq!(task.queue(job(5)), Some(job(5)));
    assert!(task.ended().is_empty());
}

#[test]
fn the_dial_tells_the_endpoint_what_the_connection_is_for() {
    assert_eq!(RESOLVE_APP_DATA, r#"{"connType":"resolver"}"#);
}
