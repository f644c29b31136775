use spectra_proxy::addr::{IpAddr, SocketAddr};
use spectra_proxy::config::{LoadBalanceMode, Protocol, ServiceConfig, TlsMode};
use spectra_proxy::text::{
    decimal_text, last_segment_text, same_text, starts_with, text_bytes, two_places_text,
};

fn config(protocol: Protocol) -> ServiceConfig {
    ServiceConfig {
        name: "s".to_string(),
        protocol,
        listen_addr: "127.0.0.1:1".to_string(),
        backends: Vec::new(),
        load_balance: LoadBalanceMode::default(),
        http_rules: None,
        cert_path: None,
        key_path: None,
        acme_domain: None,
        acme_email: None,
        rate_limit: None,
    }
}

#[test]
fn numbers_are_written_in_decimal() {
    for n in [0u64, 1, 9, 10, 99, 100, 1024, u64::MAX] {
        assert_eq!(decimal_text(n), n.to_string());
        assert_eq!(two_places_text(n), format!("{:02}", n));
    }
}

#[test]
fn text_is_compared_by_its_characters() {
    assert!(same_text("", ""));
    assert!(same_text("straße", "straße"));
    assert!(!same_text("strasse", "straße"));
    assert!(starts_with("/api/v1", "/api"));
    assert!(starts_with("/api", ""));
    assert!(starts_with("/straße", "/straß"));
    assert!(!starts_with("/ap", "/api"));
    assert!(!starts_with("/é", "/è"));
    assert_eq!(text_bytes("/é"), 3);
}

#[test]
fn the_last_segment_follows_the_last_colon() {
    assert_eq!(last_segment_text("127.0.0.1:8080"), "8080");
    assert_eq!(last_segment_text("[::1]:443"), "443");
    assert_eq!(last_segment_text("no port"), "no port");
    assert_eq!(last_segment_text("trailing:"), "");
    assert_eq!(last_segment_text(""), "");
}

#[test]
fn protocols_have_labels() {
    let mut tcp = config(Protocol::Tcp);
    let mut udp = config(Protocol::Udp);
    let mut http = config(Protocol::Http);
    assert_eq!(tcp.protocol_label(), "tcp");
    assert_eq!(udp.protocol_label(), "udp");
    assert_eq!(http.protocol_label(), "http");
    tcp.cert_path = Some("cert.pem".to_string());
    udp.acme_domain = Some("example.com".to_string());
    http.acme_domain = Some("example.com".to_string());
    assert_eq!(tcp.protocol_label(), "tcps");
    assert_eq!(udp.protocol_label(), "udp");
    assert_eq!(http.protocol_label(), "https");
}

#[test]
fn a_domain_goes_before_certificate_files() {
    let mut c = config(Protocol::Tcp);
    assert!(matches!(c.tls_mode(), TlsMode::Plain));
    assert!(!c.is_encrypted());
    c.cert_path = Some("cert.pem".to_string());
    assert!(matches!(c.tls_mode(), TlsMode::Plain));
    assert!(!c.is_encrypted());
    c.key_path = Some("key.pem".to_string());
    assert!(c.is_encrypted());
    match c.tls_mode() {
        TlsMode::Static { cert_path, key_path } => {
            assert_eq!(cert_path, "cert.pem");
            assert_eq!(key_path, "key.pem");
        }
        other => panic!("{:?}", other),
    }
    c.acme_domain = Some("example.com".to_string());
    match c.tls_mode() {
        TlsMode::Acme { domain, email } => {
            assert_eq!(domain, "example.com");
            assert_eq!(email, "admin@example.com");
        }
        other => panic!("{:?}", other),
    }
    c.acme_email = Some("me@example.com".to_string());
    match c.tls_mode() {
        TlsMode::Acme { email, .. } => assert_eq!(email, "me@example.com"),
        other => panic!("{:?}", other),
    }
}

#[test]
fn http3_needs_certificates() {
    let mut c = config(Protocol::Http);
    c.cert_path = Some("cert.pem".to_string());
    assert_eq!(
        c.tls_mode().h3_refusal(),
        Some("HTTP/3 engine requires certs/keys or acme_domain parameters")
    );
    c.key_path = Some("key.pem".to_string());
    assert_eq!(c.tls_mode().h3_refusal(), None);
    c.acme_domain = Some("example.com".to_string());
    assert_eq!(c.tls_mode().h3_refusal(), None);
}

#[test]
fn round_robin_is_the_default() {
    assert_eq!(LoadBalanceMode::default(), LoadBalanceMode::RoundRobin);
}

#[test]
fn socket_addresses_hold_ip_addresses() {
    assert_eq!(SocketAddr::V4 { ip: 5, port: 80 }.ip(), IpAddr::V4(5));
    let v6 = SocketAddr::V6 { ip: 9, port: 80, flowinfo: 1, scope_id: 2 };
    assert_eq!(v6.ip(), IpAddr::V6(9));
}
