use ziti_intercept::config::{
    dial_timeout_for, DialOptions, InterceptV1Config, DEFAULT_CONNECT_TIMEOUT,
};

#[test]
fn dial_timeout_default_5s_without_dial_options() {
    let cfg = InterceptV1Config::default();
    assert_eq!(dial_timeout_for(&cfg), 5);
}

#[test]
fn dial_timeout_default_5s_with_dial_options_but_no_secs() {
    let cfg = InterceptV1Config {
        dial_options: Some(DialOptions {
            connect_timeout_seconds: None,
            identity: Some("x".into()),
        }),
        ..Default::default()
    };
    assert_eq!(dial_timeout_for(&cfg), 5);
}

#[test]
fn dial_timeout_explicit_seconds() {
    let cfg = InterceptV1Config {
        dial_options: Some(DialOptions {
            connect_timeout_seconds: Some(30),
            identity: None,
        }),
        ..Default::default()
    };
    assert_eq!(dial_timeout_for(&cfg), 30);
}

#[test]
fn dial_timeout_zero_maps_to_sdk_15s_not_5s() {
    let cfg = InterceptV1Config {
        dial_options: Some(DialOptions {
            connect_timeout_seconds: Some(0),
            identity: None,
        }),
        ..Default::default()
    };
    assert_eq!(dial_timeout_for(&cfg), DEFAULT_CONNECT_TIMEOUT);
    assert_eq!(dial_timeout_for(&cfg), 15);
}
