use spectra_proxy::addr::{IpAddr, SocketAddr};
use spectra_proxy::config::{LoadBalanceMode, Protocol, RateLimitConfig, ServiceConfig};
use spectra_proxy::metrics::ServiceMetrics;
use spectra_proxy::middleware::load_balancer::LoadBalancer;
use spectra_proxy::middleware::rate_limiter::Refill;
use spectra_proxy::tcp::{Connect, Handshake, TcpNext, TcpProxy, Transfer};
use spectra_proxy::udp::{Answer, SessionSetup, UdpNext, UdpProxy, UdpSession};

const CLIENT: IpAddr = IpAddr::V4(1);

/// Counts whole tokens that never come back.
fn tickets(tokens: u64, _elapsed: u128, _rate: u64, max: u64) -> Refill {
    Refill {
        tokens,
        below_max: tokens < max,
        spent: if tokens > 0 { Some(tokens - 1) } else { None },
    }
}

fn config(protocol: Protocol) -> ServiceConfig {
    ServiceConfig {
        name: "s".to_string(),
        protocol,
        listen_addr: "127.0.0.1:1".to_string(),
        backends: vec!["127.0.0.1:2".to_string()],
        load_balance: LoadBalanceMode::RoundRobin,
        http_rules: None,
        cert_path: None,
        key_path: None,
        acme_domain: None,
        acme_email: None,
        rate_limit: None,
    }
}

fn tcp(config: ServiceConfig) -> TcpProxy<fn(u64, u128, u64, u64) -> Refill> {
    let lb = LoadBalancer::new(config.backends.clone(), config.load_balance);
    TcpProxy::new(config, lb, tickets)
}

fn udp(config: ServiceConfig) -> UdpProxy<fn(u64, u128, u64, u64) -> Refill, u8> {
    let lb = LoadBalancer::new(config.backends.clone(), config.load_balance);
    UdpProxy::new(config, lb, tickets)
}

fn v4(ip: u32, port: u16) -> SocketAddr {
    SocketAddr::V4 { ip, port }
}

#[test]
fn a_tcp_connection_is_forwarded_and_counted() {
    let mut proxy = tcp(config(Protocol::Tcp));
    let mut m = ServiceMetrics::new();
    let conn = proxy.accepted(CLIENT, &mut m).unwrap();
    assert_eq!(conn.backend, "127.0.0.1:2");
    assert_eq!(m.active_connections, 1);
    assert_eq!(proxy.connected(&conn, Connect::Established, &mut m), TcpNext::Forward);
    proxy.forwarded(Transfer::Done { rx: 10, tx: 20 }, &mut m);
    assert_eq!(
        m,
        ServiceMetrics {
            active_connections: 0,
            total_connections: 1,
            bytes_rx: 10,
            bytes_tx: 20,
            total_requests: 0,
            total_errors: 0,
        }
    );
}

#[test]
fn an_encrypted_tcp_connection_shakes_hands_first() {
    let mut c = config(Protocol::Tcp);
    c.acme_domain = Some("example.com".to_string());
    let mut proxy = tcp(c);
    let mut m = ServiceMetrics::new();
    let conn = proxy.accepted(CLIENT, &mut m).unwrap();
    assert_eq!(proxy.connected(&conn, Connect::Established, &mut m), TcpNext::Handshake);
    assert_eq!(proxy.shook_hands(Handshake::Done, &mut m), TcpNext::Forward);
    proxy.forwarded(Transfer::Failed, &mut m);
    assert_eq!((m.active_connections, m.total_errors), (0, 1));
    for outcome in [Handshake::Failed, Handshake::TimedOut] {
        let conn = proxy.accepted(CLIENT, &mut m).unwrap();
        proxy.connected(&conn, Connect::Established, &mut m);
        assert_eq!(proxy.shook_hands(outcome, &mut m), TcpNext::Close);
    }
    assert_eq!((m.active_connections, m.total_errors, m.total_connections), (0, 3, 3));
}

#[test]
fn three_failures_to_connect_keep_a_tcp_backend_out() {
    let mut proxy = tcp(config(Protocol::Tcp));
    let mut m = ServiceMetrics::new();
    for outcome in [Connect::Failed, Connect::TimedOut, Connect::Failed] {
        let conn = proxy.accepted(CLIENT, &mut m).unwrap();
        assert_eq!(proxy.connected(&conn, outcome, &mut m), TcpNext::Close);
    }
    assert_eq!((m.active_connections, m.total_errors, m.total_connections), (0, 3, 3));
    assert_eq!(proxy.accepted(CLIENT, &mut m).err(), Some("LoadBalancer"));
    assert_eq!((m.active_connections, m.total_errors, m.total_connections), (0, 4, 3));
    proxy.accept_failed(&mut m);
    assert_eq!(m.total_errors, 5);
}

#[test]
fn a_success_in_between_keeps_a_tcp_backend_in() {
    let mut proxy = tcp(config(Protocol::Tcp));
    let mut m = ServiceMetrics::new();
    for outcome in
        [Connect::Failed, Connect::Failed, Connect::Established, Connect::Failed, Connect::Failed]
    {
        let conn = proxy.accepted(CLIENT, &mut m).unwrap();
        proxy.connected(&conn, outcome, &mut m);
    }
    assert!(proxy.accepted(CLIENT, &mut m).is_ok());
}

#[test]
fn a_tcp_client_over_its_limit_is_rejected() {
    let mut c = config(Protocol::Tcp);
    c.rate_limit = Some(RateLimitConfig { max_requests: 1, refill_rate: 0 });
    let mut proxy = tcp(c);
    let mut m = ServiceMetrics::new();
    assert!(proxy.accepted(CLIENT, &mut m).is_ok());
    assert_eq!(proxy.accepted(CLIENT, &mut m).err(), Some("RateLimiter"));
    assert!(proxy.accepted(IpAddr::V4(2), &mut m).is_ok());
    assert_eq!((m.active_connections, m.total_errors), (2, 1));
}

#[test]
fn a_udp_session_is_opened_once_and_closed() {
    let mut proxy = udp(config(Protocol::Udp));
    let mut m = ServiceMetrics::new();
    let client = v4(1, 100);
    assert_eq!(proxy.received(client, 40, &mut m), Ok("127.0.0.1:2".to_string()));
    assert_eq!((m.bytes_rx, m.total_requests), (40, 1));
    assert!(proxy.session(client).is_none());
    let backend_addr = v4(9, 2);
    let ready = UdpSession { backend_socket: 5u8, backend_addr };
    let session = proxy.establish(client, SessionSetup::Ready(ready), &mut m).unwrap();
    assert_eq!(session.backend_socket, 5);
    assert_eq!(m.active_connections, 1);
    // A second one for the same client is not opened.
    let other = UdpSession { backend_socket: 6u8, backend_addr };
    let session = proxy.establish(client, SessionSetup::Ready(other), &mut m).unwrap();
    assert_eq!(session.backend_socket, 5);
    assert_eq!(m.active_connections, 1);
    assert_eq!(proxy.session(client).unwrap().backend_addr, backend_addr);
    assert!(proxy.session(v4(1, 101)).is_none());
    proxy.close_session(client, &mut m);
    assert!(proxy.session(client).is_none());
    assert_eq!((m.active_connections, m.total_connections, m.total_errors), (0, 1, 0));
}

#[test]
fn a_udp_session_that_cannot_be_prepared_is_an_error() {
    let mut proxy = udp(config(Protocol::Udp));
    let mut m = ServiceMetrics::new();
    assert!(proxy.establish(v4(1, 1), SessionSetup::BadAddress, &mut m).is_none());
    assert!(proxy.establish(v4(1, 1), SessionSetup::BindFailed, &mut m).is_none());
    assert_eq!((m.active_connections, m.total_errors), (0, 2));
    assert!(proxy.session(v4(1, 1)).is_none());
}

#[test]
fn only_answers_of_the_udp_backend_go_back() {
    let proxy = udp(config(Protocol::Udp));
    let mut m = ServiceMetrics::new();
    let backend = v4(9, 2);
    let from_backend = Answer::Received { from: backend };
    let from_elsewhere = Answer::Received { from: v4(9, 3) };
    assert_eq!(proxy.answered(backend, from_backend, &mut m), UdpNext::SendBack);
    assert_eq!(proxy.answered(backend, from_elsewhere, &mut m), UdpNext::Ignore);
    assert_eq!(m.total_errors, 0);
    assert_eq!(proxy.answered(backend, Answer::TimedOut, &mut m), UdpNext::Close);
    assert_eq!(m.total_errors, 0);
    assert_eq!(proxy.answered(backend, Answer::Failed, &mut m), UdpNext::Close);
    assert_eq!(m.total_errors, 1);
    proxy.sent_back(30, true, &mut m);
    proxy.sent_back(30, false, &mut m);
    assert_eq!((m.bytes_tx, m.total_errors), (30, 2));
}

#[test]
fn udp_packets_that_cannot_be_sent_trip_the_backend() {
    let mut proxy = udp(config(Protocol::Udp));
    let mut m = ServiceMetrics::new();
    for _ in 0..3 {
        assert!(proxy.received(v4(1, 1), 1, &mut m).is_ok());
        proxy.forwarded("127.0.0.1:2", false, &mut m);
    }
    assert_eq!(proxy.received(v4(1, 1), 1, &mut m), Err("LoadBalancer"));
    assert_eq!((m.total_errors, m.total_requests, m.bytes_rx), (4, 3, 3));
    proxy.forwarded("127.0.0.1:2", true, &mut m);
    proxy.receive_failed(&mut m);
    assert_eq!(m.total_errors, 5);
}
