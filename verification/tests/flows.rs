use ziti_intercept::addr::{IpAddr, SocketAddr};
use ziti_intercept::flows::FlowRegistry;
use ziti_intercept::resolve::Protocol;

fn addr(last: u8, port: u16) -> SocketAddr {
    SocketAddr { ip: IpAddr::V4(0x0a00_0000 + u32::from(last)), port }
}

#[test]
fn kill_service_cancels_only_that_services_flows() {
    let mut reg = FlowRegistry::new();
    let a1 = reg.register("a", Protocol::Tcp, addr(1, 1000), addr(9, 80));
    let a2 = reg.register("a", Protocol::Udp, addr(2, 1001), addr(9, 53));
    let b1 = reg.register("b", Protocol::Tcp, addr(3, 1002), addr(8, 443));
    assert_eq!(reg.registered_total(), 3);
    assert_eq!(reg.live_flows("a"), 2);

    let killed = reg.kill_service("a");
    assert_eq!(killed.len(), 2);

    assert!(killed.contains(&a1));
    assert!(killed.contains(&a2));
    assert!(!killed.contains(&b1));
    assert_eq!(reg.live_flows("a"), 0);
    assert_eq!(reg.live_flows("b"), 1);
    assert_eq!(reg.registered_total(), 3);
}

#[test]
fn natural_close_prunes_handle_and_kill_is_noop() {
    let mut reg = FlowRegistry::new();
    let dying = reg.register("a", Protocol::Tcp, addr(1, 1000), addr(9, 80));
    assert_eq!(reg.live_flows("a"), 1);

    reg.finish("a", dying);
    assert_eq!(reg.live_flows("a"), 0);

    let fresh = reg.register("a", Protocol::Tcp, addr(4, 1003), addr(9, 80));
    assert_eq!(reg.live_flows("a"), 1);
    assert_eq!(reg.registered_total(), 2);

    reg.finish("a", fresh);
    assert_eq!(reg.kill_service("a").len(), 0);
    assert_eq!(reg.kill_service("jamas-registrado").len(), 0);
}

#[test]
fn cancelled_before_first_poll_still_fires() {
    let mut reg = FlowRegistry::new();
    let token = reg.register("a", Protocol::Tcp, addr(1, 1000), addr(9, 80));

    assert_eq!(reg.kill_service("a"), vec![token]);
    assert_eq!(reg.kill_service("a").len(), 0);
}

#[test]
fn a_kill_names_the_living_in_the_order_of_their_registration() {
    let mut reg = FlowRegistry::new();
    let first = reg.register("a", Protocol::Tcp, addr(1, 1), addr(9, 80));
    let second = reg.register("a", Protocol::Tcp, addr(2, 2), addr(9, 80));
    let third = reg.register("a", Protocol::Udp, addr(3, 3), addr(9, 80));
    reg.finish("a", second);
    assert_eq!(reg.kill_service("a"), vec![first, third]);
}
