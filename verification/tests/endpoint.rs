use habits_display::endpoint::{parse_u16, pick_dns_answer, resolve_host, ConnectionConfig, HostLookup};
use habits_display::error::Error;

#[test]
fn host_and_port() {
    let config = ConnectionConfig::parse("habits.lcl:3000", "false");
    assert_eq!(config.hostname, "habits.lcl");
    assert_eq!(config.port, 3000);
    assert!(!config.use_tls);
}

#[test]
fn default_port() {
    assert_eq!(ConnectionConfig::parse("habits.lcl", "true").port, 80);
    assert_eq!(ConnectionConfig::parse("habits.lcl:", "true").port, 80);
    assert_eq!(ConnectionConfig::parse("habits.lcl:http", "true").port, 80);
    assert_eq!(ConnectionConfig::parse("habits.lcl:70000", "true").port, 80);
    assert_eq!(ConnectionConfig::parse("habits.lcl", "true").hostname, "habits.lcl");
}

#[test]
fn port_is_the_second_segment() {
    let config = ConnectionConfig::parse("a:443:9", "true");
    assert_eq!(config.hostname, "a");
    assert_eq!(config.port, 443);
    assert_eq!(ConnectionConfig::parse(":8080", "x").hostname, "");
    assert_eq!(ConnectionConfig::parse(":8080", "x").port, 8080);
}

#[test]
fn tls_only_when_true() {
    assert!(ConnectionConfig::parse("h", "true").use_tls);
    assert!(!ConnectionConfig::parse("h", "TRUE").use_tls);
    assert!(!ConnectionConfig::parse("h", "true ").use_tls);
    assert!(!ConnectionConfig::parse("h", "").use_tls);
}

#[test]
fn parses_u16_like_std() {
    for text in ["0", "80", "+80", "007", "65535", "65536", "", "+", "-1", "8 0", "99999999999", "१२"] {
        assert_eq!(parse_u16(text), text.parse::<u16>().ok(), "{:?}", text);
    }
}

#[test]
fn literal_addresses_skip_dns() {
    assert!(matches!(resolve_host("192.168.1.10"), HostLookup::Address([192, 168, 1, 10])));
    assert!(matches!(resolve_host("0.0.0.0"), HostLookup::Address([0, 0, 0, 0])));
    assert!(matches!(resolve_host("habits.lcl"), HostLookup::Dns));
    assert!(matches!(resolve_host("01.2.3.4"), HostLookup::Dns));
    assert!(matches!(resolve_host("256.1.1.1"), HostLookup::Dns));
    assert!(matches!(resolve_host("1.2.3"), HostLookup::Dns));
}

#[test]
fn dns_answer_uses_first_address() {
    let addresses = [[10, 0, 0, 1], [10, 0, 0, 2]];
    assert_eq!(pick_dns_answer(Some(&addresses)), Ok([10, 0, 0, 1]));
    assert_eq!(pick_dns_answer(Some(&[])), Err(Error::Dns));
    assert_eq!(pick_dns_answer(None), Err(Error::Dns));
}
