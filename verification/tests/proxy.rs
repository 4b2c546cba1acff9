use ziti_intercept::proxy::parse_service_port;

#[test]
fn parse_service_port_accepts_oracle_shape() {
    assert_eq!(
        parse_service_port("git-http:3000"),
        Ok(("git-http".into(), 3000))
    );
    assert_eq!(parse_service_port("a:b:2222"), Ok(("a:b".into(), 2222)));
}

#[test]
fn parse_service_port_rejects_malformed() {
    for bad in ["git-http", ":3000", "svc:", "svc:0", "svc:70000", "svc:x"] {
        assert!(parse_service_port(bad).is_err(), "{bad} must be refused");
    }
}
