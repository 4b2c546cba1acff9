use ziti_intercept::addr::{IpAddr, SocketAddr};
use ziti_intercept::error::InterceptError;
use ziti_intercept::stack::{
    bounded_shutdown, contains_text, egress_goes_on, endpoints, ingress_goes_on,
    is_per_datagram_encode_error, reply_addrs, reply_result, DeviceRead, Endpoints, InnerShutdown,
    PacketAddrs, ReplyWrite, DEVICE_READ_BUF, UDP_REPLY_QUEUE_DEPTH,
};
use ziti_intercept::udp::ReplyOutcome;

fn client() -> SocketAddr {
    SocketAddr { ip: IpAddr::V4(0x0a63_0005), port: 54_321 }
}

fn dst() -> SocketAddr {
    SocketAddr { ip: IpAddr::V4(0x0102_0304), port: 80 }
}

#[test]
fn accept_yields_dst_then_src_not_swapped() {
    assert_eq!(endpoints(client(), dst()), Endpoints { dst: dst(), src: client() });
}

#[test]
fn udp_send_to_swaps_addresses_so_the_reply_comes_from_dst() {
    let got = endpoints(client(), dst());
    assert_eq!(reply_addrs(got), PacketAddrs { from: dst(), to: client() });
}

#[test]
fn bounded_shutdown_returns_promptly_and_emits_fin_while_alive() {
    assert!(bounded_shutdown(InnerShutdown::Pending));
    assert!(bounded_shutdown(InnerShutdown::Done { ok: true }));
    assert!(!bounded_shutdown(InnerShutdown::Done { ok: false }));
}

#[test]
fn udp_reply_task_survives_an_uncodable_datagram() {
    let mixed = ReplyWrite::Failed {
        invalid_data: true,
        message: "src or destination type unmatch".to_string(),
    };
    assert!(egress_goes_on(&mixed));
}

#[test]
fn udp_reply_task_survives_an_oversize_datagram() {
    let oversize = ReplyWrite::Failed {
        invalid_data: false,
        message: "PacketBuilder::write: too long".to_string(),
    };
    assert!(egress_goes_on(&oversize));
    assert!(egress_goes_on(&ReplyWrite::Written));
    let closed = ReplyWrite::Failed { invalid_data: false, message: "send error".to_string() };
    assert!(!egress_goes_on(&closed));
}

#[test]
fn only_the_failures_of_one_answer_are_passed_over() {
    assert!(is_per_datagram_encode_error(true, "anything"));
    assert!(is_per_datagram_encode_error(false, "x PacketBuilder::write: y"));
    assert!(!is_per_datagram_encode_error(false, "flush error"));
    assert!(!is_per_datagram_encode_error(false, ""));
}

#[test]
fn a_text_is_found_anywhere_in_another() {
    assert!(contains_text("abc", ""));
    assert!(contains_text("", ""));
    assert!(contains_text("abc", "abc"));
    assert!(contains_text("xabc", "abc"));
    assert!(contains_text("abcx", "abc"));
    assert!(contains_text("aab", "ab"));
    assert!(!contains_text("ab", "abc"));
    assert!(!contains_text("axbxc", "abc"));
}

#[test]
fn the_device_is_read_until_it_ends_or_fails() {
    assert!(ingress_goes_on(DeviceRead::Bytes(1)));
    assert!(!ingress_goes_on(DeviceRead::Bytes(0)));
    assert!(!ingress_goes_on(DeviceRead::Failed));
    assert_eq!(DEVICE_READ_BUF, 65535);
}

#[test]
fn a_full_queue_drops_an_answer_and_a_closed_one_fails() {
    assert_eq!(UDP_REPLY_QUEUE_DEPTH, 1024);
    assert_eq!(reply_result(ReplyOutcome::Queued), Ok(true));
    assert_eq!(reply_result(ReplyOutcome::Full), Ok(false));
    assert_eq!(
        reply_result(ReplyOutcome::Closed),
        Err("intercept udp: cola de respuestas cerrada (pila desmontada)")
    );
}

#[test]
fn a_device_that_does_not_open_says_so() {
    let e = InterceptError::DeviceOpen("permission denied".to_string());
    assert_eq!(e.message(), "failed to open the tun device: permission denied");
}
