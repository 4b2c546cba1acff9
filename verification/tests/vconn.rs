use ziti_intercept::addr::{IpAddr, SocketAddr};
use ziti_intercept::proxy::PROXY_BUF;
use ziti_intercept::udp_flows::{FlowKey, RouteAction, UdpFlows};
use ziti_intercept::vconn::{
    udp_pieces, OverlayRead, Pump, ReaderStep, Vconn, WriterStep, VCONN_QUEUE_DEPTH,
};

const NOW: u64 = 1_000_000;

fn flow() -> FlowKey {
    let at = |ip: u32, port: u16| SocketAddr { ip: IpAddr::V4(ip), port };
    FlowKey { src: at(0x0a00_0005, 1234), dst: at(0x6440_0007, 9999) }
}

fn drained(c: &mut Vconn) -> Vec<Vec<u8>> {
    let mut out = Vec::new();
    loop {
        match c.writer_step(NOW) {
            WriterStep::Write(d) => out.push(d),
            WriterStep::Wait => panic!("the writer waits"),
            WriterStep::Stop => return out,
        }
    }
}

#[test]
fn killed_vconn_full_closes_sets_closed_and_drops_undrained() {
    let mut c = Vconn::new(vec![0; 8], NOW);
    for i in 1..3u8 {
        c.deliver(vec![i; 8]);
    }
    c.kill();
    assert!(drained(&mut c).is_empty());
    assert!(!c.end_pump(Pump::Reader));
    assert!(c.end_pump(Pump::Writer));
    assert!(c.is_closed());
    assert!(!c.end_pump(Pump::Writer));
}

#[test]
fn killed_vconn_mid_relay_never_tears_a_frame() {
    let inflight = vec![0xCDu8; 8 * 1024];
    let mut c = Vconn::new(inflight.clone(), NOW);
    c.deliver(vec![0xEE; 16]);
    assert_eq!(c.writer_step(NOW), WriterStep::Write(inflight));
    c.kill();
    assert!(drained(&mut c).is_empty());
}

#[test]
fn ziti_eof_drains_queued_datagrams() {
    let mut c = Vconn::new(vec![0xAA; 8], NOW);
    c.deliver(vec![0xAB; 8]);
    assert_eq!(c.reader_step(OverlayRead::Eof, NOW), ReaderStep::Stop);
    assert!(!c.end_pump(Pump::Reader));
    assert_eq!(drained(&mut c), vec![vec![0xAA; 8], vec![0xAB; 8]]);
    assert!(c.end_pump(Pump::Writer));
    assert!(c.is_closed());
}

#[test]
fn drive_vconn_marks_closed_before_the_drain_completes() {
    let inflight = vec![0xCDu8; 8 * 1024];
    let mut c = Vconn::new(inflight.clone(), NOW);
    c.deliver(vec![0xAA; 8]);
    assert_eq!(c.writer_step(NOW), WriterStep::Write(inflight));
    c.end_pump(Pump::Reader);
    assert!(c.is_closed());
    assert_eq!(c.waiting(), 1);
    assert_eq!(drained(&mut c), vec![vec![0xAA; 8]]);
}

#[test]
fn teardown_window_datagram_creates_a_fresh_vconn_while_the_old_one_drains() {
    let mut conns = UdpFlows::new();
    conns.create_vconn(flow(), 0, vec![0xCDu8; 8 * 1024], NOW);
    assert_eq!(conns.route_decision(flow()), RouteAction::Deliver);
    conns.deliver(flow(), vec![0xAA; 8]);

    assert!(!conns.end_pump(0, Pump::Reader));
    assert_eq!(conns.route_decision(flow()), RouteAction::CreateNew);
    assert_eq!(conns.len(), 0);
    conns.create_vconn(flow(), 1, vec![1], NOW);

    assert_eq!(conns.writer_step(0, NOW), WriterStep::Write(vec![0xCDu8; 8 * 1024]));
    assert_eq!(conns.writer_step(0, NOW), WriterStep::Write(vec![0xAA; 8]));
    assert_eq!(conns.writer_step(0, NOW), WriterStep::Stop);
    assert!(conns.end_pump(0, Pump::Writer));
    assert_eq!(conns.writer_step(1, NOW), WriterStep::Write(vec![1]));
}

#[test]
fn kill_during_the_drain_cuts_it_short() {
    let inflight = vec![0xCDu8; 8 * 1024];
    let mut c = Vconn::new(inflight.clone(), NOW);
    c.deliver(vec![0xAA; 8]);
    c.deliver(vec![0xAB; 8]);
    c.end_pump(Pump::Reader);
    assert_eq!(c.writer_step(NOW), WriterStep::Write(inflight));
    c.kill();
    assert!(drained(&mut c).is_empty());
}

#[test]
fn evicted_vconn_drains_then_converges_while_reader_is_parked() {
    let queued = vec![0x11u8; 4];
    let mut c = Vconn::new(queued.clone(), NOW);
    c.evict();
    assert!(c.reader_goes_on());
    assert_eq!(drained(&mut c), vec![queued]);
    assert!(!c.end_pump(Pump::Writer));
    assert!(!c.reader_goes_on());
    assert!(c.end_pump(Pump::Reader));
    assert!(c.is_spent());
}

#[test]
fn an_idle_writer_waits() {
    let mut c = Vconn::new(vec![1], NOW);
    assert_eq!(c.writer_step(NOW), WriterStep::Write(vec![1]));
    assert_eq!(c.writer_step(NOW), WriterStep::Wait);
}

#[test]
fn a_full_queue_drops_what_comes() {
    let mut c = Vconn::new(vec![0], NOW);
    for i in 1..=(VCONN_QUEUE_DEPTH as u8) {
        c.deliver(vec![i]);
    }
    assert_eq!(c.waiting(), VCONN_QUEUE_DEPTH);
    c.mark_closed();
    let all = drained(&mut c);
    assert_eq!(all.len(), VCONN_QUEUE_DEPTH);
    assert_eq!(all.last(), Some(&vec![VCONN_QUEUE_DEPTH as u8 - 1]));
}

#[test]
fn a_closed_connection_takes_no_datagram() {
    let mut c = Vconn::new(vec![0], NOW);
    c.end_pump(Pump::Reader);
    c.deliver(vec![1]);
    assert_eq!(c.waiting(), 1);
}

#[test]
fn traffic_in_either_direction_keeps_a_connection_alive() {
    let mut c = Vconn::new(vec![0], NOW);
    assert!(c.is_expired(10, NOW + 11));
    c.writer_step(NOW + 11);
    assert!(!c.is_expired(10, NOW + 21));
    assert!(c.is_expired(10, NOW + 22));
    c.reader_step(OverlayRead::Chunk(vec![1]), NOW + 22);
    assert!(!c.is_expired(10, NOW + 32));
    assert!(!c.is_expired(10, 0));
    c.mark_closed();
    assert!(c.is_expired(10, NOW + 22));
}

#[test]
fn a_chunk_is_cut_into_pieces() {
    assert!(udp_pieces(&[], 4).is_empty());
    assert_eq!(udp_pieces(&[1, 2, 3], 4), vec![vec![1, 2, 3]]);
    assert_eq!(udp_pieces(&[1, 2, 3, 4], 4), vec![vec![1, 2, 3, 4]]);
    assert_eq!(udp_pieces(&[1, 2, 3, 4, 5], 2), vec![vec![1, 2], vec![3, 4], vec![5]]);
    assert_eq!(PROXY_BUF, 16367);
    let mut c = Vconn::new(vec![0], NOW);
    match c.reader_step(OverlayRead::Chunk(vec![7; PROXY_BUF + 1]), NOW) {
        ReaderStep::Send(pieces) => {
            assert_eq!(pieces.len(), 2);
            assert_eq!(pieces.concat(), vec![7; PROXY_BUF + 1]);
        }
        ReaderStep::Stop => panic!("the reader stops"),
    }
}

#[test]
fn a_reader_stops_at_the_end_of_the_overlay_and_on_a_failure() {
    let mut c = Vconn::new(vec![0], NOW);
    assert_eq!(c.reader_step(OverlayRead::Eof, NOW), ReaderStep::Stop);
    assert_eq!(c.reader_step(OverlayRead::Failed, NOW), ReaderStep::Stop);
    c.kill();
    assert_eq!(c.reader_step(OverlayRead::Chunk(vec![1]), NOW), ReaderStep::Stop);
}

#[test]
fn a_failed_dial_leaves_nothing_to_do() {
    let mut c = Vconn::new(vec![0], NOW);
    c.fail_dial();
    assert!(c.is_closed());
    assert!(!c.end_pump(Pump::Writer));
    c.evict();
    assert!(c.is_spent());
}

#[test]
fn state_closed_aborts_the_drain() {
    let mut c = Vconn::new(vec![0xAA; 8], NOW);
    c.deliver(vec![0xAB; 8]);
    assert_eq!(c.reader_step(OverlayRead::Eof, NOW), ReaderStep::Stop);
    assert!(!c.end_pump(Pump::Reader));
    assert!(!c.is_over());
    assert_eq!(c.writer_step(NOW), WriterStep::Write(vec![0xAA; 8]));
    assert!(!c.wrote(false));
    assert!(drained(&mut c).is_empty());
    assert!(c.is_over());
    assert!(c.is_closed());
}

#[test]
fn a_failed_write_ends_the_writer_and_a_written_one_changes_nothing() {
    let mut conns = UdpFlows::new();
    conns.create_vconn(flow(), 0, vec![1], NOW);
    conns.deliver(flow(), vec![2]);
    conns.deliver(flow(), vec![3]);
    assert_eq!(conns.writer_step(0, NOW), WriterStep::Write(vec![1]));
    assert!(conns.wrote(0, true));
    assert_eq!(conns.writer_step(0, NOW), WriterStep::Write(vec![2]));
    assert!(!conns.wrote(0, false));
    assert_eq!(conns.writer_step(0, NOW), WriterStep::Stop);
    let c = conns.vconn(0).unwrap();
    assert!(c.is_closed());
    assert!(!c.reader_goes_on());
    assert!(!c.is_over());
    assert_eq!(conns.route_decision(flow()), RouteAction::CreateNew);
}
