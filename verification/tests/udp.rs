use ziti_intercept::addr::{IpAddr, SocketAddr};
use ziti_intercept::config::{
    InterceptV1Config, PortRange, Service, ServiceConfig, ServiceEvent,
};
use ziti_intercept::dispatch::{accept_tcp, dial_for, TcpAction};
use ziti_intercept::dns::DnsMatcher;
use ziti_intercept::flows::FlowRegistry;
use ziti_intercept::json::{intercept_tcp_appdata, intercept_udp_appdata};
use ziti_intercept::proxy_resolve::{ProxyEvent, NANOS_PER_SEC};
use ziti_intercept::resolve::{InterceptResolver, Protocol};
use ziti_intercept::udp::{
    check_udp, classify_recv, send_dns_reply, RecvStep, ReplyOutcome, UdpAction,
    UdpInterceptError, UdpManager, MAX_CONSECUTIVE_RECV_NONE,
};
use ziti_intercept::udp_flows::{FlowKey, RouteAction, UdpFlows, VCONN_IDLE_TIMEOUT};
use ziti_intercept::upstream::{UpstreamDns, DNS_UPSTREAM_TIMEOUT};
use ziti_intercept::vconn::Pump;

const NOW: u64 = 1_000 * NANOS_PER_SEC;
const DNS_SRV_IP: u32 = 0x6440_0002;

fn v4(a: u8, b: u8, c: u8, d: u8, port: u16) -> SocketAddr {
    SocketAddr { ip: IpAddr::V4(u32::from_be_bytes([a, b, c, d])), port }
}

fn key(src: SocketAddr, dst: SocketAddr) -> FlowKey {
    FlowKey { src, dst }
}

fn service(name: &str, addresses: &[&str], low: u16, high: u16) -> Service {
    let cfg = InterceptV1Config {
        protocols: vec!["tcp".to_string(), "udp".to_string()],
        addresses: addresses.iter().map(|a| (*a).to_string()).collect(),
        port_ranges: vec![PortRange { low, high }],
        ..Default::default()
    };
    Service {
        name: name.to_string(),
        permissions: vec!["Dial".to_string()],
        configs: vec![ServiceConfig {
            config_type: "intercept.v1".to_string(),
            raw: format!("{addresses:?}"),
            intercept: Ok(cfg),
        }],
    }
}

fn resolver(services: &Vec<Service>) -> InterceptResolver {
    let mut dns = DnsMatcher::new();
    assert!(dns.seed_pool("100.64.0.0/24"));
    dns.reserve(0x6440_0001);
    dns.reserve(DNS_SRV_IP);
    InterceptResolver::from_services_with_dns(services, dns)
}

fn query(id: u16, name: &str, qtype: u16) -> Vec<u8> {
    let mut pkt = Vec::new();
    pkt.extend_from_slice(&id.to_be_bytes());
    pkt.extend_from_slice(&[1, 0, 0, 1, 0, 0, 0, 0, 0, 0]);
    for label in name.split('.') {
        pkt.push(u8::try_from(label.len()).unwrap());
        pkt.extend_from_slice(label.as_bytes());
    }
    pkt.push(0);
    pkt.extend_from_slice(&qtype.to_be_bytes());
    pkt.extend_from_slice(&1u16.to_be_bytes());
    pkt
}

#[test]
fn datagram_after_kill_does_not_recreate_flow() {
    let mut conns = UdpFlows::new();
    let src = v4(10, 0, 0, 5, 1234);
    let dst = v4(100, 64, 0, 7, 9999);
    conns.create_vconn(key(src, dst), 0, vec![], NOW);
    conns.kill(0);
    conns.end_pump(0, Pump::Writer);

    assert_eq!(conns.route_decision(key(src, dst)), RouteAction::CreateNew);
    assert_eq!(conns.len(), 0);

    let r = InterceptResolver::from_services(&Vec::new());
    assert!(r.lookup(dst.ip, dst.port, Protocol::Udp, src.ip).is_none());
}

#[test]
fn flows_are_keyed_by_src_and_dst_not_src_alone() {
    let mut conns = UdpFlows::new();
    let src = v4(10, 0, 0, 5, 1234);
    let dst_a = v4(100, 64, 0, 7, 53);
    let dst_b = v4(100, 64, 0, 8, 443);

    assert_eq!(conns.route_decision(key(src, dst_a)), RouteAction::CreateNew);
    conns.create_vconn(key(src, dst_a), 0, vec![], NOW);

    assert_eq!(conns.route_decision(key(src, dst_b)), RouteAction::CreateNew);
    conns.create_vconn(key(src, dst_b), 1, vec![], NOW);

    assert_eq!(conns.route_decision(key(src, dst_a)), RouteAction::Deliver);
}

#[test]
fn closed_vconn_is_evicted_and_recreated() {
    let mut conns = UdpFlows::new();
    let k = key(v4(10, 0, 0, 5, 1234), v4(100, 64, 0, 7, 53));
    conns.create_vconn(k, 0, vec![], NOW);
    assert_eq!(conns.route_decision(k), RouteAction::Deliver);

    conns.end_pump(0, Pump::Reader);
    assert_eq!(conns.route_decision(k), RouteAction::CreateNew);
    assert!(!conns.contains(k));
}

#[test]
fn drop_expired_sweeps_closed_and_idle_keeps_fresh() {
    let mut conns = UdpFlows::new();
    let idle = 60 * NANOS_PER_SEC;

    let fresh_key = key(v4(10, 0, 0, 1, 1), v4(100, 64, 0, 7, 53));
    conns.create_vconn(fresh_key, 0, vec![], NOW);

    let idle_key = key(v4(10, 0, 0, 2, 2), v4(100, 64, 0, 8, 53));
    conns.create_vconn(idle_key, 1, vec![], NOW - 120 * NANOS_PER_SEC);

    let closed_key = key(v4(10, 0, 0, 3, 3), v4(100, 64, 0, 9, 53));
    conns.create_vconn(closed_key, 2, vec![], NOW);
    conns.fail_dial(2);

    conns.drop_expired(idle, NOW);

    assert!(conns.contains(fresh_key));
    assert!(!conns.contains(idle_key));
    assert!(!conns.contains(closed_key));
}

#[test]
fn a_flow_is_idle_only_past_its_time() {
    let mut conns = UdpFlows::new();
    let k = key(v4(10, 0, 0, 1, 1), v4(100, 64, 0, 7, 53));
    conns.create_vconn(k, 0, vec![], NOW);
    conns.drop_expired(VCONN_IDLE_TIMEOUT, NOW + VCONN_IDLE_TIMEOUT);
    assert!(conns.contains(k));
    conns.drop_expired(VCONN_IDLE_TIMEOUT, NOW + VCONN_IDLE_TIMEOUT + 1);
    assert!(!conns.contains(k));
}

#[test]
fn a_given_up_connection_is_known_until_its_pumps_have_ended() {
    let mut conns = UdpFlows::new();
    let k = key(v4(10, 0, 0, 1, 1), v4(100, 64, 0, 7, 53));
    conns.create_vconn(k, 0, vec![], NOW);
    assert!(!conns.end_pump(0, Pump::Reader));
    conns.drop_expired(VCONN_IDLE_TIMEOUT, NOW);
    conns.tidy();
    assert!(conns.vconn(0).is_some());
    assert!(conns.end_pump(0, Pump::Writer));
    conns.tidy();
    assert!(conns.vconn(0).is_none());
}

#[test]
fn a_kill_reaches_the_connections_that_it_names() {
    let mut conns = UdpFlows::new();
    let src = v4(10, 0, 0, 5, 1234);
    for id in 0..3u8 {
        conns.create_vconn(key(src, v4(100, 64, 0, id, 53)), u64::from(id), vec![id], NOW);
    }
    conns.kill_all(&vec![2, 0, 99]);
    assert!(!conns.vconn(0).unwrap().reader_goes_on());
    assert!(conns.vconn(1).unwrap().reader_goes_on());
    assert!(!conns.vconn(2).unwrap().reader_goes_on());
}

#[test]
fn classify_recv_is_bounded_continue_on_none() {
    let mut n = 0u32;
    let dg = (b"x".to_vec(), v4(100, 64, 0, 7, 53), v4(10, 0, 0, 5, 1234));

    match classify_recv(Some(dg.clone()), &mut n) {
        RecvStep::Route(p, d, s) => {
            assert_eq!(p, b"x");
            assert_eq!((d, s), (dg.1, dg.2));
        }
        other => panic!("{other:?}"),
    }
    assert_eq!(n, 0);

    for i in 1..MAX_CONSECUTIVE_RECV_NONE {
        assert!(matches!(classify_recv(None, &mut n), RecvStep::Continue));
        assert_eq!(n, i);
    }
    assert!(matches!(classify_recv(Some(dg.clone()), &mut n), RecvStep::Route(..)));
    assert_eq!(n, 0);

    for _ in 1..MAX_CONSECUTIVE_RECV_NONE {
        assert!(matches!(classify_recv(None, &mut n), RecvStep::Continue));
    }
    assert!(matches!(classify_recv(None, &mut n), RecvStep::Stop));
}

#[test]
fn upstream_forward_matches_response_and_dedups() {
    let mut up = UpstreamDns::new(vec![v4(9, 9, 9, 9, 53)]);
    let server = v4(100, 64, 0, 2, 53);
    let client = v4(100, 64, 0, 200, 40000);
    let request = vec![0xAB, 0xCD, 0x01, 0x00, 0, 1, 0, 0, 0, 0, 0, 0];

    assert!(up.is_new(&request));
    assert!(up.forward(&request, &vec![true], server, client, NOW));
    assert_eq!(up.pending_len(), 1);

    assert!(!up.is_new(&request));
    assert!(up.forward(&request, &vec![], server, client, NOW));
    assert_eq!(up.pending_len(), 1);

    let response = vec![0xAB, 0xCD, 0x81, 0x80, 0, 1, 0, 1, 0, 0, 0, 0];
    let (got_server, got_client) = up.match_response(&response).unwrap();
    assert_eq!((got_server, got_client), (server, client));
    assert_eq!(up.pending_len(), 0);

    assert!(up.match_response(&[0x00, 0x01, 0, 0]).is_none());
}

#[test]
fn upstream_pending_evicts_after_ttl() {
    let mut up = UpstreamDns::new(vec![v4(9, 9, 9, 9, 53)]);
    assert!(up.forward(
        &[0x11, 0x22],
        &vec![true],
        v4(100, 64, 0, 2, 53),
        v4(10, 0, 0, 1, 5),
        NOW
    ));
    assert_eq!(up.pending_len(), 1);

    up.evict_expired(NOW + DNS_UPSTREAM_TIMEOUT);
    assert_eq!(up.pending_len(), 1);
    up.evict_expired(NOW + DNS_UPSTREAM_TIMEOUT + NANOS_PER_SEC);
    assert_eq!(up.pending_len(), 0);
}

#[test]
fn a_query_that_no_server_took_does_not_wait() {
    let mut up = UpstreamDns::new(vec![v4(9, 9, 9, 9, 53), v4(8, 8, 8, 8, 53)]);
    let server = v4(100, 64, 0, 2, 53);
    let client = v4(10, 0, 0, 1, 5);
    assert!(!up.forward(&[1, 2], &vec![false, false], server, client, NOW));
    assert_eq!(up.pending_len(), 0);
    assert!(up.forward(&[1, 2], &vec![false, true], server, client, NOW));
    assert_eq!(up.pending_len(), 1);
    assert!(up.match_response(&[1]).is_none());
}

#[test]
fn the_local_socket_is_of_the_family_of_the_servers() {
    let v6 = SocketAddr { ip: IpAddr::V6(1), port: 53 };
    assert!(!UpstreamDns::binds_v6(&vec![]));
    assert!(!UpstreamDns::binds_v6(&vec![v4(9, 9, 9, 9, 53)]));
    assert!(UpstreamDns::binds_v6(&vec![v4(9, 9, 9, 9, 53), v6]));
}

#[test]
fn a_new_flow_is_dialled_and_the_next_datagram_delivered() {
    let mut r = resolver(&vec![service("svc", &["10.0.0.0/24"], 1, 9999)]);
    let mut flows = FlowRegistry::new();
    let mut m = UdpManager::new(None, None, VCONN_IDLE_TIMEOUT);
    let src = v4(192, 168, 0, 9, 4000);
    let dst = v4(10, 0, 0, 5, 53);

    match m.on_recv(&mut r, &mut flows, Some((b"one".to_vec(), dst, src)), NOW) {
        UdpAction::Dial { flow, key: k, dial } => {
            assert_eq!(flow, 0);
            assert_eq!(k, key(src, dst));
            assert_eq!(dial.service, "svc");
            assert_eq!(dial.timeout, 5);
            assert_eq!(dial.appdata, intercept_udp_appdata(dst, None));
        }
        other => panic!("{other:?}"),
    }
    assert_eq!(flows.live_flows("svc"), 1);
    let next = m.on_recv(&mut r, &mut flows, Some((b"two".to_vec(), dst, src)), NOW);
    assert_eq!(next, UdpAction::Nothing);
    assert_eq!(m.flows_mut().vconn(0).unwrap().waiting(), 2);
    assert_eq!(flows.live_flows("svc"), 1);

    let stray = (b"x".to_vec(), v4(11, 0, 0, 5, 53), src);
    assert_eq!(m.on_recv(&mut r, &mut flows, Some(stray), NOW), UdpAction::Nothing);
    assert_eq!(m.flows_mut().len(), 1);
}

#[test]
fn a_withdrawn_service_has_its_flows_killed_and_not_revived() {
    let mut r = resolver(&vec![service("svc", &["10.0.0.0/24"], 1, 9999)]);
    let mut flows = FlowRegistry::new();
    let mut m = UdpManager::new(None, None, VCONN_IDLE_TIMEOUT);
    let src = v4(192, 168, 0, 9, 4000);
    let dst = v4(10, 0, 0, 5, 53);
    let first = m.on_recv(&mut r, &mut flows, Some((b"one".to_vec(), dst, src)), NOW);
    assert!(matches!(first, UdpAction::Dial { flow: 0, .. }));

    let applied = r.apply_event(&ServiceEvent::Removed(service("svc", &["10.0.0.0/24"], 1, 9999)));
    assert!(applied.kill_active);
    let ids = flows.kill_service("svc");
    assert_eq!(ids, vec![0]);
    m.flows_mut().kill_all(&ids);
    m.flows_mut().end_pump(0, Pump::Writer);

    let later = m.on_recv(&mut r, &mut flows, Some((b"two".to_vec(), dst, src)), NOW);
    assert_eq!(later, UdpAction::Nothing);
    assert_eq!(m.flows_mut().len(), 0);
    assert_eq!(flows.registered_total(), 1);
}

#[test]
fn a_name_query_makes_the_address_that_a_later_flow_is_dialled_by() {
    let mut r = resolver(&vec![service("wild", &["*.example.com"], 1, 9999)]);
    let mut flows = FlowRegistry::new();
    let mut m = UdpManager::new(Some(DNS_SRV_IP), None, VCONN_IDLE_TIMEOUT);
    let server = v4(100, 64, 0, 2, 53);
    let client = v4(192, 168, 0, 9, 4000);
    let asked = Some((query(7, "app.example.com", 1), server, client));
    let bytes = match m.on_recv(&mut r, &mut flows, asked, NOW) {
        UdpAction::Reply { bytes, dst, src } => {
            assert_eq!((dst, src), (server, client));
            bytes
        }
        other => panic!("{other:?}"),
    };
    let ip = u32::from_be_bytes(bytes[bytes.len() - 15..bytes.len() - 11].try_into().unwrap());
    let dst = SocketAddr { ip: IpAddr::V4(ip), port: 80 };
    match m.on_recv(&mut r, &mut flows, Some((b"x".to_vec(), dst, client)), NOW) {
        UdpAction::Dial { dial, .. } => {
            assert_eq!(dial.service, "wild");
            assert_eq!(dial.appdata, intercept_udp_appdata(dst, Some("app.example.com")));
        }
        other => panic!("{other:?}"),
    }
}

#[test]
fn an_unknown_name_is_sent_upstream_and_its_response_comes_back() {
    let mut r = resolver(&Vec::new());
    let mut flows = FlowRegistry::new();
    let up = UpstreamDns::new(vec![v4(9, 9, 9, 9, 53)]);
    let mut m = UdpManager::new(Some(DNS_SRV_IP), Some(up), VCONN_IDLE_TIMEOUT);
    let server = v4(100, 64, 0, 2, 53);
    let client = v4(192, 168, 0, 9, 4000);
    let packet = query(0x0a0b, "example.org", 1);
    let asked = Some((packet.clone(), server, client));
    let (request, refusal) = match m.on_recv(&mut r, &mut flows, asked.clone(), NOW) {
        UdpAction::SendUpstream { request, on_send_failure, dst, src } => {
            assert_eq!((dst, src), (server, client));
            (request, on_send_failure)
        }
        other => panic!("{other:?}"),
    };
    assert_eq!(request, packet);
    let failed = m.on_upstream_sent(&request, &vec![false], refusal.clone(), server, client, NOW);
    assert_eq!(
        failed,
        UdpAction::Reply { bytes: refusal.clone(), dst: server, src: client }
    );
    let sent = m.on_upstream_sent(&request, &vec![true], refusal, server, client, NOW);
    assert_eq!(sent, UdpAction::Nothing);
    assert_eq!(m.on_recv(&mut r, &mut flows, asked, NOW), UdpAction::Nothing);

    let response = vec![0x0a, 0x0b, 0x81, 0x80];
    assert_eq!(
        m.on_upstream(response.clone()),
        UdpAction::Reply { bytes: response.clone(), dst: server, src: client }
    );
    assert_eq!(m.on_upstream(response), UdpAction::Nothing);
}

#[test]
fn a_record_question_is_asked_of_the_owner_of_its_domain() {
    let mut r = resolver(&vec![service("wild", &["*.example.com"], 1, 9999)]);
    let mut flows = FlowRegistry::new();
    let mut m = UdpManager::new(Some(DNS_SRV_IP), None, VCONN_IDLE_TIMEOUT);
    let server = v4(100, 64, 0, 2, 53);
    let client = v4(192, 168, 0, 9, 4000);
    let asked = Some((query(7, "a.example.com", 16), server, client));
    match m.on_recv(&mut r, &mut flows, asked.clone(), NOW) {
        UdpAction::Ask { connect, job } => {
            assert_eq!(connect.conn, 0);
            assert!(connect.dial);
            assert_eq!(connect.service, "wild");
            assert_eq!(connect.timeout, 5);
            assert_eq!(connect.domain, "example.com");
            assert_eq!(job.id, 7);
        }
        other => panic!("{other:?}"),
    }
    assert_eq!(m.on_recv(&mut r, &mut flows, asked, NOW), UdpAction::Nothing);
    let ptr = Some((query(8, "a.example.com", 12), server, client));
    match m.on_recv(&mut r, &mut flows, ptr, NOW) {
        UdpAction::ReplyAndConnect { bytes, connect, .. } => {
            assert_eq!(bytes[3], 4);
            assert_eq!(connect.conn, 0);
            assert!(!connect.dial);
        }
        other => panic!("{other:?}"),
    }
    match m.on_proxy(ProxyEvent::WriteFailed(7)) {
        UdpAction::Reply { bytes, dst, src } => {
            assert_eq!(bytes[3], 2);
            assert_eq!((dst, src), (server, client));
        }
        other => panic!("{other:?}"),
    }
    m.conn_closed("example.com", 0);
    assert_eq!(m.replace_conn("wild", "example.com"), Some(1));
}

#[test]
fn the_tick_forgets_what_has_waited_too_long() {
    let mut r = resolver(&vec![service("wild", &["*.example.com"], 1, 9999)]);
    let mut flows = FlowRegistry::new();
    let mut m = UdpManager::new(Some(DNS_SRV_IP), None, VCONN_IDLE_TIMEOUT);
    let server = v4(100, 64, 0, 2, 53);
    let client = v4(192, 168, 0, 9, 4000);
    let asked = Some((query(7, "a.example.com", 16), server, client));
    assert!(matches!(m.on_recv(&mut r, &mut flows, asked, NOW), UdpAction::Ask { .. }));
    m.on_tick(NOW + 6 * NANOS_PER_SEC);
    assert_eq!(m.on_proxy(ProxyEvent::WriteFailed(7)), UdpAction::Nothing);
}

#[test]
fn the_manager_stops_when_the_stack_gives_nothing_too_often() {
    let mut r = resolver(&Vec::new());
    let mut flows = FlowRegistry::new();
    let mut m = UdpManager::new(None, None, VCONN_IDLE_TIMEOUT);
    for _ in 1..MAX_CONSECUTIVE_RECV_NONE {
        assert_eq!(m.on_recv(&mut r, &mut flows, None, NOW), UdpAction::Nothing);
    }
    assert_eq!(m.on_recv(&mut r, &mut flows, None, NOW), UdpAction::Stop);
}

#[test]
fn only_a_closed_queue_of_answers_stops_the_manager() {
    assert!(send_dns_reply(ReplyOutcome::Queued));
    assert!(send_dns_reply(ReplyOutcome::Full));
    assert!(!send_dns_reply(ReplyOutcome::Closed));
}

#[test]
fn a_stack_without_udp_is_refused() {
    assert_eq!(check_udp(true), Ok(()));
    assert_eq!(check_udp(false), Err(UdpInterceptError::NotEnabled));
    assert_eq!(
        UdpInterceptError::NotEnabled.message(),
        "run_udp_intercept requires a UDP-enabled stack (InterceptStack::new_with_udp)"
    );
    assert!(UdpInterceptError::StackClosed.message().starts_with("intercept udp: recv_from"));
}

#[test]
fn a_tcp_flow_is_registered_and_dialled_or_closed_or_served() {
    let r = resolver(&vec![service("svc", &["10.0.0.0/24", "app.example.com"], 1, 9999)]);
    let mut flows = FlowRegistry::new();
    let src = v4(192, 168, 0, 9, 4000);
    let dst = v4(10, 0, 0, 5, 80);
    match accept_tcp(&r, &mut flows, Some(DNS_SRV_IP), dst, src) {
        TcpAction::Dial { flow, dial } => {
            assert_eq!(flow, 0);
            assert_eq!(dial.appdata, intercept_tcp_appdata(dst, None));
        }
        other => panic!("{other:?}"),
    }
    assert_eq!(flows.live_flows("svc"), 1);
    let named = v4(100, 64, 0, 3, 80);
    assert_eq!(
        dial_for(&r, Protocol::Tcp, named, src).unwrap().appdata,
        intercept_tcp_appdata(named, Some("app.example.com"))
    );
    let stray = v4(11, 0, 0, 5, 80);
    assert_eq!(accept_tcp(&r, &mut flows, Some(DNS_SRV_IP), stray, src), TcpAction::Close);
    let dns = v4(100, 64, 0, 2, 53);
    assert_eq!(accept_tcp(&r, &mut flows, Some(DNS_SRV_IP), dns, src), TcpAction::ServeDns);
    assert_eq!(accept_tcp(&r, &mut flows, None, dns, src), TcpAction::Close);
    assert_eq!(flows.registered_total(), 1);
}

#[test]
fn a_refused_question_is_asked_once_more_and_then_fails() {
    let mut r = resolver(&vec![service("wild", &["*.example.com"], 1, 9999)]);
    let mut flows = FlowRegistry::new();
    let mut m = UdpManager::new(Some(DNS_SRV_IP), None, VCONN_IDLE_TIMEOUT);
    let server = v4(100, 64, 0, 2, 53);
    let client = v4(192, 168, 0, 9, 4000);
    let asked = Some((query(7, "a.example.com", 16), server, client));
    let (connect, job) = match m.on_recv(&mut r, &mut flows, asked, NOW) {
        UdpAction::Ask { connect, job } => (connect, job),
        other => panic!("{other:?}"),
    };
    let json = job.json.clone();
    let (connect, job) = match m.on_refused(connect, job, false) {
        UdpAction::Ask { connect, job } => (connect, job),
        other => panic!("{other:?}"),
    };
    assert_eq!(connect.conn, 1);
    assert!(connect.dial);
    assert_eq!(connect.service, "wild");
    assert_eq!(connect.timeout, 5);
    assert_eq!(connect.domain, "example.com");
    assert_eq!(job.id, 7);
    assert_eq!(job.json, json);
    match m.on_refused(connect, job, true) {
        UdpAction::Reply { bytes, dst, src } => {
            assert_eq!(bytes[3], 2);
            assert_eq!((dst, src), (server, client));
        }
        other => panic!("{other:?}"),
    }
    assert_eq!(m.on_proxy(ProxyEvent::WriteFailed(7)), UdpAction::Nothing);
}
