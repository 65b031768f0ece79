use telepathy::resolver::parse;
use telepathy::Connect;

#[test]
fn parse_splits_host_and_port() {
    assert_eq!(parse("example.com:8080", 1), ("example.com".to_string(), 8080));
}

#[test]
fn parse_without_colon_uses_default_port() {
    assert_eq!(parse("example.com", 443), ("example.com".to_string(), 443));
}

#[test]
fn parse_bad_port_uses_default_port() {
    assert_eq!(parse("host:http", 80), ("host".to_string(), 80));
    assert_eq!(parse("host:70000", 80), ("host".to_string(), 80));
    assert_eq!(parse("host:", 80), ("host".to_string(), 80));
}

#[test]
fn parse_splits_at_first_colon_only() {
    assert_eq!(parse("a:b:5", 9), ("a".to_string(), 9));
    assert_eq!(parse("a:+65535", 9), ("a".to_string(), 65535));
}

#[test]
fn connect_host_uses_default_timeout() {
    let c = Connect::host("node1:9000");
    assert_eq!(c.name, "node1:9000");
    assert_eq!(c.port, None);
    assert_eq!(c.timeout_ms, 1000);
}
