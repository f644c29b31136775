use spectra_proxy::clock::{Clock, NANOS_PER_SEC};
use spectra_proxy::config::{
    Config, LoadBalanceMode, Protocol, RateLimitConfig, ServiceConfig,
};
use spectra_proxy::metrics::MetricsTracker;
use spectra_proxy::middleware::rate_limiter::Refill;
use spectra_proxy::services::{launch, service_names, Launch, ModificationWatch, Proxy};
use spectra_proxy::ui::{
    format_bytes, format_duration, protocol_color, quits, service_rows, ProtocolColor, Ticker,
    TuiDashboard, TuiServiceInfo, TICK_RATE,
};

fn float_format(bytes: u64) -> String {
    if bytes == 0 {
        return "0 B".to_string();
    }
    let sizes = ["B", "KB", "MB", "GB", "TB"];
    let i = ((bytes as f64).log(1024.0).floor() as usize).min(4);
    format!("{:.2} {}", bytes as f64 / 1024f64.powi(i as i32), sizes[i])
}

fn info(name: &str, protocol: &str) -> TuiServiceInfo {
    TuiServiceInfo {
        name: name.to_string(),
        protocol: protocol.to_string(),
        listen_addr: "127.0.0.1:1".to_string(),
    }
}

fn service(name: &str, protocol: Protocol) -> ServiceConfig {
    ServiceConfig {
        name: name.to_string(),
        protocol,
        listen_addr: "127.0.0.1:1".to_string(),
        backends: vec!["a:1".to_string(), "b:1".to_string()],
        load_balance: LoadBalanceMode::Random,
        http_rules: None,
        cert_path: None,
        key_path: None,
        acme_domain: None,
        acme_email: None,
        rate_limit: Some(RateLimitConfig { max_requests: 1, refill_rate: 0 }),
    }
}

fn tickets(tokens: u64, _elapsed: u128, _rate: u64, max: u64) -> Refill {
    Refill {
        tokens,
        below_max: tokens < max,
        spent: if tokens > 0 { Some(tokens - 1) } else { None },
    }
}

#[test]
fn bytes_are_shown_in_the_largest_unit() {
    assert_eq!(format_bytes(0), "0 B");
    assert_eq!(format_bytes(1), "1.00 B");
    assert_eq!(format_bytes(1023), "1023.00 B");
    assert_eq!(format_bytes(1024), "1.00 KB");
    assert_eq!(format_bytes(1536), "1.50 KB");
    assert_eq!(format_bytes(1024 * 1024 - 1), "1024.00 KB");
    assert_eq!(format_bytes(1 << 20), "1.00 MB");
    assert_eq!(format_bytes(1 << 30), "1.00 GB");
    assert_eq!(format_bytes(1 << 40), "1.00 TB");
    assert_eq!(format_bytes(1 << 50), "1024.00 TB");
    assert_eq!(format_bytes(u64::MAX), "16777216.00 TB");
}

#[test]
fn bytes_are_shown_as_double_precision_would() {
    let mut cases: Vec<u64> = (0..5000).collect();
    for shift in 0..64 {
        for d in 0..40u64 {
            cases.push((1u64 << shift).wrapping_add(d));
            cases.push((1u64 << shift).wrapping_sub(d));
            cases.push((1u64 << shift).wrapping_mul(d));
        }
    }
    let mut x: u64 = 88172645463325252;
    for k in 0..20000u32 {
        x ^= x << 13;
        x ^= x >> 7;
        x ^= x << 17;
        cases.push(x >> (k % 64));
        // Halves of a hundredth.
        cases.push((x >> 40).wrapping_mul(128));
    }
    for bytes in cases {
        assert_eq!(format_bytes(bytes), float_format(bytes), "{}", bytes);
    }
}

#[test]
fn spans_of_time_are_shown_in_hours_minutes_and_seconds() {
    assert_eq!(format_duration(0), "00:00:00");
    assert_eq!(format_duration(59), "00:00:59");
    assert_eq!(format_duration(3661), "01:01:01");
    assert_eq!(format_duration(100 * 3600), "100:00:00");
}

#[test]
fn the_title_shows_the_uptime() {
    let dashboard = TuiDashboard::new();
    assert_eq!(
        dashboard.title_at(3661 * NANOS_PER_SEC + 999_999_999),
        " SPECTRA PROXY // TELEMETRY CENTER | Uptime: 01:01:01 | Config: config.toml"
    );
    let clock = Clock::starting_at(std::time::Instant::now());
    assert!(TuiDashboard::with_clock(clock).title().ends_with(" | Config: config.toml"));
    assert!(dashboard.title().starts_with(" SPECTRA PROXY // TELEMETRY CENTER | Uptime: 00:00:"));
}

#[test]
fn the_uptime_grows() {
    let start = std::time::Instant::now();
    let dashboard = TuiDashboard::with_clock(Clock::starting_at(start));
    let clock = Clock::starting_at(start);
    while clock.read() < NANOS_PER_SEC {}
    assert!(!dashboard.title().contains("00:00:00"));
}

#[test]
fn protocols_have_colors() {
    assert_eq!(protocol_color("http"), ProtocolColor::LightGreen);
    assert_eq!(protocol_color("https"), ProtocolColor::LightGreen);
    assert_eq!(protocol_color("tcp"), ProtocolColor::LightBlue);
    assert_eq!(protocol_color("tcps"), ProtocolColor::LightBlue);
    assert_eq!(protocol_color("udp"), ProtocolColor::Magenta);
    assert_eq!(protocol_color("TCP"), ProtocolColor::White);
}

#[test]
fn rows_show_counters() {
    let mut tracker = MetricsTracker::new(&["web".to_string()]);
    let m = tracker.get("web");
    m.inc_active_connections();
    m.inc_active_connections();
    m.dec_active_connections();
    m.add_rx(2048);
    m.add_tx(3);
    m.inc_requests();
    m.inc_errors();
    let rows = service_rows(&[info("web", "Https"), info("unknown", "udp")], &tracker);
    assert_eq!(rows.len(), 2);
    let web = &rows[0];
    assert_eq!(web.name, "web");
    assert_eq!(web.protocol, "HTTPS");
    assert_eq!(web.protocol_color, ProtocolColor::LightGreen);
    assert_eq!(web.listen_addr, "127.0.0.1:1");
    assert_eq!((web.active.as_str(), web.is_active), ("1", true));
    assert_eq!((web.total.as_str(), web.requests.as_str()), ("2", "1"));
    assert_eq!((web.received.as_str(), web.sent.as_str()), ("2.00 KB", "3.00 B"));
    assert_eq!((web.errors.as_str(), web.has_errors), ("1", true));
    let unknown = &rows[1];
    assert_eq!(unknown.protocol, "UDP");
    assert_eq!(unknown.protocol_color, ProtocolColor::Magenta);
    assert_eq!((unknown.active.as_str(), unknown.is_active), ("0", false));
    assert_eq!((unknown.received.as_str(), unknown.sent.as_str()), ("0 B", "0 B"));
    assert_eq!((unknown.errors.as_str(), unknown.has_errors), ("0", false));
}

#[test]
fn the_dashboard_waits_until_the_next_tick() {
    let mut ticker = Ticker::new(1000);
    assert_eq!(ticker.timeout(1000), TICK_RATE);
    assert_eq!(ticker.timeout(1000 + TICK_RATE - 1), 1);
    assert_eq!(ticker.timeout(1000 + 2 * TICK_RATE), 0);
    ticker.tick(1000 + TICK_RATE - 1);
    assert_eq!(ticker.last_tick, 1000);
    ticker.tick(1000 + TICK_RATE);
    assert_eq!(ticker.last_tick, 1000 + TICK_RATE);
}

#[test]
fn q_quits() {
    assert!(quits('q'));
    assert!(quits('Q'));
    assert!(!quits('w'));
}

#[test]
fn a_configuration_becomes_services() {
    let config = Config {
        services: vec![
            service("t", Protocol::Tcp),
            service("u", Protocol::Udp),
            service("h", Protocol::Http),
        ],
    };
    assert_eq!(service_names(&config), vec!["t", "u", "h"]);
    let mut tracker = MetricsTracker::new(&service_names(&config));
    tracker.get("t").add_rx(5);
    tracker.get("gone").add_rx(6);
    let started: Launch<_, u8> = launch(config, &mut tracker, tickets);
    let shown: Vec<(&str, &str)> =
        started.infos.iter().map(|i| (i.name.as_str(), i.protocol.as_str())).collect();
    assert_eq!(shown, vec![("t", "tcp"), ("u", "udp"), ("h", "http")]);
    match &started.proxies[..] {
        [Proxy::Tcp(t), Proxy::Udp(u), Proxy::Http(h)] => {
            assert_eq!(t.config.name, "t");
            assert_eq!(u.config.name, "u");
            assert!(u.sessions.is_empty());
            assert_eq!(h.config.name, "h");
            assert_eq!(h.default_lb.get_backends(), vec!["a:1", "b:1"]);
            assert_eq!(h.default_lb.mode, LoadBalanceMode::Random);
            assert_eq!(h.middleware_chain.middlewares.len(), 1);
        }
        _ => panic!("other services"),
    }
    // Counters outlive a reload.
    let again = Config { services: vec![service("t", Protocol::Tcp), service("n", Protocol::Udp)] };
    let started: Launch<_, u8> = launch(again, &mut tracker, tickets);
    assert_eq!(started.proxies.len(), 2);
    assert_eq!(tracker.get("t").bytes_rx, 5);
    assert_eq!(tracker.get("gone").bytes_rx, 6);
    assert_eq!(tracker.get_all_snapshots().len(), 5);
}

#[test]
fn a_modification_triggers_once() {
    let mut watch = ModificationWatch::new(10);
    assert!(!watch.observe(None));
    assert!(!watch.observe(Some(10)));
    assert!(watch.observe(Some(11)));
    assert!(!watch.observe(Some(11)));
    assert!(!watch.observe(Some(-5)));
    assert!(watch.observe(Some(12)));
}
