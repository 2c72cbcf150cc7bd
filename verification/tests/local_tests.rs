use accesslm::local::{parse_port, pick_address, service_port, NetInterface};

#[test]
fn port_default_when_unset() {
    assert_eq!(service_port(&None), 7331);
}

#[test]
fn port_parses_plain_and_signed() {
    assert_eq!(service_port(&Some("8080".to_string())), 8080);
    assert_eq!(service_port(&Some("+123".to_string())), 123);
    assert_eq!(service_port(&Some("007".to_string())), 7);
}

#[test]
fn port_default_on_bad_text() {
    assert_eq!(service_port(&Some("abc".to_string())), 7331);
    assert_eq!(service_port(&Some("".to_string())), 7331);
    assert_eq!(service_port(&Some("+".to_string())), 7331);
    assert_eq!(service_port(&Some("-1".to_string())), 7331);
    assert_eq!(service_port(&Some("70000".to_string())), 7331);
    assert_eq!(service_port(&Some("12 ".to_string())), 7331);
}

#[test]
fn parse_port_agrees_with_std_parsing() {
    for s in [
        "0", "1", "9", "80", "7331", "65535", "65536", "99999", "999999999999999999999", "+65535",
        "+0", "", "+", "-5", "1x", " 1", "٥",
    ] {
        assert_eq!(parse_port(s), s.parse::<u16>().ok(), "input {:?}", s);
    }
}

#[test]
fn picks_first_non_loopback_address() {
    let ifaces = vec![
        NetInterface { ip: "127.0.0.1".to_string(), loopback: true },
        NetInterface { ip: "192.168.1.5".to_string(), loopback: false },
        NetInterface { ip: "10.0.0.8".to_string(), loopback: false },
    ];
    assert_eq!(pick_address(&ifaces), Some("192.168.1.5".to_string()));
}

#[test]
fn no_usable_address_when_all_loopback() {
    let ifaces = vec![NetInterface { ip: "127.0.0.1".to_string(), loopback: true }];
    assert_eq!(pick_address(&ifaces), None);
    assert_eq!(pick_address(&Vec::new()), None);
}
