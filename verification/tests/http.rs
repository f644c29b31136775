use hyper::header::{HeaderMap, HeaderName, HeaderValue};
use spectra_proxy::addr::IpAddr;
use spectra_proxy::config::{
    HeadersConfig, HttpRules, LoadBalanceMode, Protocol, RateLimitConfig, Route, ServiceConfig,
};
use spectra_proxy::headers::{Advertising, MAX_NAMES};
use spectra_proxy::http::{
    failure_reply, refusal_reply, stream_refusal_reply, HttpNext, HttpProxy, Refusal,
};
use spectra_proxy::metrics::ServiceMetrics;
use spectra_proxy::middleware::load_balancer::LoadBalancer;
use spectra_proxy::middleware::rate_limiter::Refill;
use spectra_proxy::tcp::Handshake;

const CLIENT: IpAddr = IpAddr::V4(1);

/// Counts whole tokens that never come back.
fn tickets(tokens: u64, _elapsed: u128, _rate: u64, max: u64) -> Refill {
    Refill {
        tokens,
        below_max: tokens < max,
        spent: if tokens > 0 { Some(tokens - 1) } else { None },
    }
}

type Proxy = HttpProxy<fn(u64, u128, u64, u64) -> Refill>;

fn config(routes: &[(&str, &str)]) -> ServiceConfig {
    let routes = routes
        .iter()
        .map(|(path, backend)| Route {
            path: path.to_string(),
            backends: if backend.is_empty() { Vec::new() } else { vec![backend.to_string()] },
        })
        .collect();
    ServiceConfig {
        name: "web".to_string(),
        protocol: Protocol::Http,
        listen_addr: "127.0.0.1:8443".to_string(),
        backends: vec!["default:80".to_string()],
        load_balance: LoadBalanceMode::RoundRobin,
        http_rules: Some(HttpRules { routes: Some(routes), headers: None }),
        cert_path: None,
        key_path: None,
        acme_domain: None,
        acme_email: None,
        rate_limit: None,
    }
}

fn proxy(config: ServiceConfig) -> Proxy {
    let lb = LoadBalancer::new(config.backends.clone(), config.load_balance);
    HttpProxy::new(config, lb, tickets)
}

fn with_headers(inject: &[(&str, &str)], remove: &[&str]) -> Proxy {
    let mut c = config(&[]);
    c.http_rules = Some(HttpRules {
        routes: None,
        headers: Some(HeadersConfig {
            inject: Some(inject.iter().map(|(k, v)| (k.to_string(), v.to_string())).collect()),
            remove: Some(remove.iter().map(|k| k.to_string()).collect()),
        }),
    });
    proxy(c)
}

fn headers(list: &[(&'static str, &'static str)]) -> HeaderMap<HeaderValue> {
    let mut map = HeaderMap::new();
    for (k, v) in list {
        map.append(HeaderName::from_static(k), HeaderValue::from_static(v));
    }
    map
}

fn all(map: &HeaderMap<HeaderValue>, name: &str) -> Vec<String> {
    map.get_all(name).iter().map(|v| v.to_str().unwrap().to_string()).collect()
}

#[test]
fn the_most_specific_route_is_taken() {
    let mut p = proxy(config(&[("/", "root:1"), ("/api/v1", "v1:1"), ("/api", "api:1")]));
    let paths: Vec<&str> = p.routes.iter().map(|r| r.path.as_str()).collect();
    assert_eq!(paths, vec!["/api/v1", "/api", "/"]);
    let mut m = ServiceMetrics::new();
    for (path, backend) in
        [("/api/v1/x", "v1:1"), ("/api/v2", "api:1"), ("/other", "root:1"), ("/api", "api:1")]
    {
        let forward = p.begin(path, &mut m).unwrap();
        assert_eq!(forward.backend, backend);
        assert_eq!(forward.uri.to_string(), format!("http://{}{}", backend, path));
    }
    assert_eq!((m.total_requests, m.total_errors), (4, 0));
}

#[test]
fn equally_long_paths_keep_their_order() {
    let p = proxy(config(&[("/a", "first:1"), ("/b", "x:1"), ("/a", "second:1"), ("/abc", "y:1")]));
    let order: Vec<String> = p.routes.iter().map(|r| r.lb.get_backends()[0].clone()).collect();
    assert_eq!(order, vec!["y:1", "first:1", "x:1", "second:1"]);
    assert_eq!(p.route("/a"), Some(1));
    assert_eq!(p.route("/"), None);
}

#[test]
fn path_length_is_counted_in_bytes() {
    let p = proxy(config(&[("/abc", "x:1"), ("/éé", "y:1")]));
    let paths: Vec<&str> = p.routes.iter().map(|r| r.path.as_str()).collect();
    assert_eq!(paths, vec!["/éé", "/abc"]);
}

#[test]
fn without_a_route_the_service_serves() {
    let mut p = proxy(config(&[("/api", "api:1")]));
    let mut m = ServiceMetrics::new();
    let forward = p.begin("/else", &mut m).unwrap();
    assert_eq!(forward.route, None);
    assert_eq!(forward.backend, "default:80");
    let mut plain = config(&[]);
    plain.http_rules = None;
    let mut p = proxy(plain);
    assert_eq!(p.begin("/", &mut m).unwrap().backend, "default:80");
}

#[test]
fn a_route_without_backends_refuses() {
    let mut p = proxy(config(&[("/api", "")]));
    let mut m = ServiceMetrics::new();
    assert_eq!(p.begin("/api/x", &mut m).err(), Some(Refusal::NoBackend));
    assert_eq!((m.total_requests, m.total_errors), (1, 1));
    assert!(p.begin("/", &mut m).is_ok());
}

#[test]
fn a_backend_that_makes_no_uri_is_refused() {
    let mut p = proxy(config(&[("/bad", "not a host")]));
    let mut m = ServiceMetrics::new();
    assert_eq!(p.begin("/bad", &mut m).err(), Some(Refusal::BadUri));
    assert_eq!((m.total_requests, m.total_errors), (1, 1));
}

#[test]
fn decisions_follow_choice_and_uri() {
    let p = proxy(config(&[]));
    let mut m = ServiceMetrics::new();
    let uri: hyper::Uri = "http://a/".parse().unwrap();
    assert_eq!(p.decide(None, None, Some(uri.clone()), &mut m).err(), Some(Refusal::NoBackend));
    assert_eq!(p.decide(None, Some("a".to_string()), None, &mut m).err(), Some(Refusal::BadUri));
    assert_eq!(m.total_errors, 2);
    let forward = p.decide(Some(3), Some("a".to_string()), Some(uri.clone()), &mut m).unwrap();
    assert_eq!((forward.route, forward.backend, forward.uri), (Some(3), "a".to_string(), uri));
    assert_eq!(m.total_errors, 2);
}

#[test]
fn failures_trip_the_backend_of_their_route_only() {
    let mut p = proxy(config(&[("/api", "api:1")]));
    let mut m = ServiceMetrics::new();
    for _ in 0..3 {
        let forward = p.begin("/api", &mut m).unwrap();
        p.finish(forward.route, &forward.backend, false, &mut m);
    }
    assert_eq!(m.total_errors, 3);
    assert_eq!(p.begin("/api", &mut m).err(), Some(Refusal::NoBackend));
    for _ in 0..2 {
        let forward = p.begin("/", &mut m).unwrap();
        p.finish(forward.route, &forward.backend, false, &mut m);
    }
    let forward = p.begin("/", &mut m).unwrap();
    p.finish(forward.route, &forward.backend, true, &mut m);
    let forward = p.begin("/", &mut m).unwrap();
    p.finish(forward.route, &forward.backend, false, &mut m);
    assert!(p.begin("/", &mut m).is_ok());
}

#[test]
fn http_connections_are_screened_and_counted() {
    let mut c = config(&[]);
    c.rate_limit = Some(RateLimitConfig { max_requests: 2, refill_rate: 0 });
    let mut p = proxy(c);
    let mut m = ServiceMetrics::new();
    assert_eq!(p.accepted(CLIENT, &mut m), Ok(HttpNext::Serve));
    p.served(false, &mut m);
    assert_eq!(p.accepted(CLIENT, &mut m), Ok(HttpNext::Serve));
    p.served(true, &mut m);
    assert_eq!(p.accepted(CLIENT, &mut m), Err("RateLimiter"));
    assert_eq!(p.screen(CLIENT, &mut m), Err("RateLimiter"));
    assert_eq!(p.screen(IpAddr::V6(1), &mut m), Ok(()));
    p.accept_failed(&mut m);
    assert_eq!((m.active_connections, m.total_connections, m.total_errors), (0, 2, 4));
}

#[test]
fn encrypted_http_connections_shake_hands_first() {
    let mut c = config(&[]);
    c.cert_path = Some("c".to_string());
    c.key_path = Some("k".to_string());
    let mut p = proxy(c);
    let mut m = ServiceMetrics::new();
    assert_eq!(p.accepted(CLIENT, &mut m), Ok(HttpNext::Handshake));
    assert_eq!(p.shook_hands(Handshake::Done, &mut m), HttpNext::Serve);
    p.served(false, &mut m);
    assert_eq!((m.active_connections, m.total_errors), (0, 0));
    for outcome in [Handshake::Failed, Handshake::TimedOut] {
        p.accepted(CLIENT, &mut m).unwrap();
        assert_eq!(p.shook_hands(outcome, &mut m), HttpNext::Close);
    }
    assert_eq!((m.active_connections, m.total_errors), (0, 2));
}

#[test]
fn quic_connections_are_counted() {
    let p = proxy(config(&[]));
    let mut m = ServiceMetrics::new();
    p.quic_accepted(true, &mut m);
    p.quic_ended(true, &mut m);
    assert_eq!((m.active_connections, m.total_connections, m.total_errors), (0, 1, 0));
    p.quic_accepted(true, &mut m);
    p.quic_ended(false, &mut m);
    p.quic_accepted(false, &mut m);
    assert_eq!((m.active_connections, m.total_connections, m.total_errors), (1, 2, 2));
}

#[test]
fn rules_set_and_remove_fields() {
    let p = with_headers(
        &[("X-One", "1"), ("bad name", "x"), ("X-Two", "bad\nvalue"), ("Server", "mine")],
        &["server", "X-Gone", "also bad"],
    );
    let mut map = headers(&[("x-one", "old"), ("x-one", "older"), ("x-gone", "a"), ("x-keep", "k")]);
    assert!(p.prepare(&mut map, "10.0.0.1"));
    assert_eq!(all(&map, "x-one"), vec!["1"]);
    assert_eq!(all(&map, "x-keep"), vec!["k"]);
    assert_eq!(all(&map, "x-forwarded-for"), vec!["10.0.0.1"]);
    assert_eq!(all(&map, "x-forwarded-proto"), vec!["http"]);
    assert_eq!(all(&map, "x-proxy-by"), vec!["SpectraProxy"]);
    assert!(map.get("x-two").is_none());
    assert!(map.get("x-gone").is_none());
    assert!(map.get("server").is_none());
    assert_eq!(map.keys_len(), 5);
}

#[test]
fn long_names_are_put_in_lower_case() {
    let name = "X-".to_string() + &"Long".repeat(40);
    let p = with_headers(&[(&name, "1")], &[]);
    let mut map = headers(&[]);
    assert!(p.prepare_stream(&mut map));
    assert_eq!(all(&map, &name.to_lowercase()), vec!["1"]);
    let p = with_headers(&[(&("Y".to_string() + &name), "1")], &[&name]);
    assert!(p.prepare_stream(&mut map));
    assert_eq!(all(&map, &name.to_lowercase()), Vec::<String>::new());
    assert_eq!(map.keys_len(), 3);
}

#[test]
fn the_fields_of_the_proxy_cannot_be_forged() {
    let p = with_headers(&[("X-Proxy-By", "rules"), ("X-Forwarded-For", "rules")], &["x-forwarded-proto"]);
    let client = [
        ("x-forwarded-for", "1.1.1.1"),
        ("x-forwarded-for", "2.2.2.2"),
        ("x-forwarded-proto", "gopher"),
        ("x-proxy-by", "client"),
    ];
    let mut map = headers(&client);
    assert!(p.prepare(&mut map, "::1"));
    assert_eq!(all(&map, "x-forwarded-for"), vec!["::1"]);
    assert_eq!(all(&map, "x-forwarded-proto"), vec!["http"]);
    assert_eq!(all(&map, "x-proxy-by"), vec!["SpectraProxy"]);
    let mut map = headers(&client);
    assert!(p.prepare_stream(&mut map));
    assert_eq!(all(&map, "x-forwarded-proto"), vec!["https"]);
    assert_eq!(all(&map, "x-proxy-by"), vec!["SpectraProxy-H3"]);
    assert_eq!(all(&map, "x-forwarded-for"), vec!["rules"]);
}

#[test]
fn without_rules_the_fields_of_the_client_stay() {
    let p = proxy(config(&[]));
    let mut map = headers(&[("x-mine", "1"), ("x-mine", "2")]);
    assert!(p.prepare(&mut map, "1.2.3.4"));
    assert_eq!(all(&map, "x-mine"), vec!["1", "2"]);
    assert_eq!(map.keys_len(), 4);
    let mut map = headers(&[]);
    assert!(p.prepare(&mut map, "no\naddress"));
    assert!(map.get("x-forwarded-for").is_none());
}

#[test]
fn answers_advertise_http3() {
    let mut map = headers(&[("alt-svc", "clear")]);
    let mut c = config(&[]);
    assert!(proxy(c.clone()).prepare_answer(&mut map));
    assert_eq!(all(&map, "alt-svc"), vec!["clear"]);
    // A certificate without a key serves neither encrypted connections nor HTTP/3.
    c.cert_path = Some("cert".to_string());
    assert!(proxy(c.clone()).prepare_answer(&mut map));
    assert_eq!(all(&map, "alt-svc"), vec!["clear"]);
    c.key_path = Some("key".to_string());
    assert!(proxy(c.clone()).prepare_answer(&mut map));
    assert_eq!(all(&map, "alt-svc"), vec!["h3=\":8443\"; ma=86400"]);
    let mut map = headers(&[]);
    c.cert_path = None;
    c.key_path = None;
    c.acme_domain = Some("example.com".to_string());
    assert!(proxy(c.clone()).prepare_answer(&mut map));
    assert_eq!(all(&map, "alt-svc"), vec!["h3=\":8443\"; ma=86400"]);
    c.acme_domain = None;
    let mut m = ServiceMetrics::new();
    let mut map = headers(&[]);
    assert_eq!(proxy(c.clone()).prepare_stream_answer(&mut map, &mut m), Advertising::Done);
    assert_eq!(all(&map, "alt-svc"), vec!["h3=\":8443\"; ma=86400"]);
    assert_eq!(m.total_errors, 0);
    c.listen_addr = "bad\n".to_string();
    let mut map = headers(&[]);
    assert_eq!(proxy(c.clone()).prepare_stream_answer(&mut map, &mut m), Advertising::BadAddress);
    assert_eq!(map.keys_len(), 0);
    assert_eq!(m.total_errors, 1);
    c.acme_domain = Some("d".to_string());
    assert!(proxy(c).prepare_answer(&mut map));
    assert_eq!(map.keys_len(), 0);
}

fn crowded(names: usize) -> HeaderMap<HeaderValue> {
    let mut map = HeaderMap::new();
    for i in 0..names {
        let name = HeaderName::from_bytes(format!("x-{}", i).as_bytes()).unwrap();
        map.insert(name, HeaderValue::from_static("v"));
    }
    map
}

#[test]
fn many_header_fields_are_no_obstacle() {
    let mut c = config(&[]);
    c.acme_domain = Some("example.com".to_string());
    let p = proxy(c);
    let mut m = ServiceMetrics::new();
    for names in [MAX_NAMES, MAX_NAMES + 1, 2 * MAX_NAMES] {
        let mut map = crowded(names);
        assert!(p.prepare(&mut map, "1.2.3.4"));
        assert_eq!(map.keys_len(), names + 3);
        assert!(p.prepare_stream(&mut map));
        assert_eq!(map.keys_len(), names + 3);
        assert_eq!(all(&map, "x-forwarded-proto"), vec!["https"]);
        assert!(p.prepare_answer(&mut map));
        assert_eq!(p.prepare_stream_answer(&mut map, &mut m), Advertising::Done);
        assert_eq!(map.keys_len(), names + 4);
    }
}

#[test]
fn a_full_header_map_takes_no_more() {
    // The most names that a header map holds.
    let full = 24576;
    let mut c = config(&[]);
    let mut m = ServiceMetrics::new();
    let mut map = crowded(full);
    assert!(proxy(c.clone()).prepare_answer(&mut map));
    assert!(!proxy(c.clone()).prepare(&mut map, "1.2.3.4"));
    assert!(!proxy(c.clone()).prepare_stream(&mut map));
    assert_eq!(proxy(c.clone()).prepare_stream_answer(&mut map, &mut m), Advertising::NoRoom);
    c.acme_domain = Some("example.com".to_string());
    assert!(!proxy(c).prepare_answer(&mut map));
    assert_eq!(map.keys_len(), full);
    assert_eq!(m, ServiceMetrics::new());
}

#[test]
fn replies_say_what_went_wrong() {
    let reply = refusal_reply(Refusal::NoBackend);
    assert_eq!(reply.status, 502);
    assert_eq!(reply.content_type, "text/plain");
    assert_eq!(reply.body, "Gateway Error: No backends configured or available.");
    let reply = refusal_reply(Refusal::BadUri);
    assert_eq!(reply.status, 500);
    assert_eq!(reply.body, "Internal Error: Bad backend URI format.");
    let reply = stream_refusal_reply(Refusal::NoBackend).unwrap();
    assert_eq!(reply.status, 502);
    assert!(stream_refusal_reply(Refusal::BadUri).is_none());
    let reply = failure_reply("connection refused");
    assert_eq!(reply.status, 502);
    assert_eq!(reply.body, "Bad Gateway: Request to backend failed: connection refused");
}
