use spectra_proxy::addr::IpAddr;
use spectra_proxy::clock::{Clock, NANOS_PER_SEC};
use spectra_proxy::config::{LoadBalanceMode, RateLimitConfig};
use spectra_proxy::middleware::intake::Intake;
use spectra_proxy::middleware::load_balancer::LoadBalancer;
use spectra_proxy::middleware::rate_limiter::{RateLimiter, Refill};
use spectra_proxy::middleware::{ConnectionContext, Middleware, MiddlewareChain};

/// 127.0.0.1
const LOCAL: IpAddr = IpAddr::V4(0x7f00_0001);
/// 192.168.1.1
const OTHER: IpAddr = IpAddr::V4(0xc0a8_0101);

fn refill(tokens: u64, elapsed: u128, rate: u64, max: u64) -> Refill {
    let max = f64::from_bits(max);
    let secs = elapsed as f64 / 1e9;
    let now = (f64::from_bits(tokens) + secs * f64::from_bits(rate)).min(max);
    Refill {
        tokens: now.to_bits(),
        below_max: now < max,
        spent: if now >= 1.0 { Some((now - 1.0).to_bits()) } else { None },
    }
}

fn limiter(max: f64, rate: f64) -> RateLimiter<fn(u64, u128, u64, u64) -> Refill> {
    RateLimiter::new(max.to_bits(), rate.to_bits(), refill)
}

#[test]
fn test_rate_limiter_basics() {
    let mut limiter = limiter(2.0, 1.0); // max 2 tokens, refills 1 token/sec

    // 1st request should be allowed (2.0 -> 1.0 tokens)
    assert!(limiter.filter(LOCAL));

    // 2nd request should be allowed (1.0 -> 0.0 tokens)
    assert!(limiter.filter(LOCAL));

    // 3rd request should be blocked (0.0 tokens left)
    assert!(!limiter.filter(LOCAL));
}

#[test]
fn test_rate_limiter_independent_ips() {
    let mut limiter = limiter(1.0, 1.0);

    // The first client consumes its token
    assert!(limiter.filter(LOCAL));
    assert!(!limiter.filter(LOCAL));

    // The second client should still have its token (independent buckets)
    assert!(limiter.filter(OTHER));
    assert!(!limiter.filter(OTHER));
}

#[test]
fn test_rate_limiter_refill() {
    let mut limiter = limiter(1.0, 100.0); // refills 100 tokens per second!

    assert!(limiter.filter(LOCAL));
    assert!(!limiter.filter(LOCAL)); // Empty bucket!

    // Wait 15 milliseconds to let the high refill rate add back a token
    let clock = Clock::start();
    while clock.read() < 15_000_000 {}

    // Should refill and allow request again!
    assert!(limiter.filter(LOCAL));
}

#[test]
fn test_middleware_integration() {
    let mut limiter = limiter(1.0, 1.0);
    let mut ctx = ConnectionContext::new(LOCAL);

    // First handle passes
    assert!(limiter.handle(&mut ctx));

    // Second handle gets rate limited
    assert!(!limiter.handle(&mut ctx));
}

#[test]
fn tokens_come_back_with_time_and_no_further_than_the_limit() {
    let mut limiter = limiter(2.0, 0.5);
    assert!(limiter.filter_at(LOCAL, 0));
    assert!(limiter.filter_at(LOCAL, 0));
    assert!(!limiter.filter_at(LOCAL, NANOS_PER_SEC));
    assert!(limiter.filter_at(LOCAL, 2 * NANOS_PER_SEC));
    assert!(!limiter.filter_at(LOCAL, 2 * NANOS_PER_SEC));
    // After a long time there are two tokens, not more.
    assert!(limiter.filter_at(LOCAL, 50 * NANOS_PER_SEC));
    assert!(limiter.filter_at(LOCAL, 50 * NANOS_PER_SEC));
    assert!(!limiter.filter_at(LOCAL, 50 * NANOS_PER_SEC));
}

#[test]
fn clearing_out_full_buckets_changes_no_decision() {
    let mut limiter = limiter(2.0, 1.0);
    assert!(limiter.filter_at(LOCAL, 0));
    assert!(limiter.filter_at(OTHER, 60 * NANOS_PER_SEC));
    assert!(limiter.filter_at(OTHER, 60 * NANOS_PER_SEC));
    assert!(!limiter.filter_at(OTHER, 60 * NANOS_PER_SEC));
    // The first client's bucket is full again and leaves; the second one's is not.
    assert!(limiter.filter_at(IpAddr::V6(7), 61 * NANOS_PER_SEC));
    assert!(limiter.filter_at(OTHER, 61 * NANOS_PER_SEC));
    assert!(!limiter.filter_at(OTHER, 61 * NANOS_PER_SEC));
    assert!(limiter.filter_at(LOCAL, 61 * NANOS_PER_SEC));
    assert!(limiter.filter_at(LOCAL, 61 * NANOS_PER_SEC));
    assert!(!limiter.filter_at(LOCAL, 61 * NANOS_PER_SEC));
}

/// Tokens in tenths, of which `rate` come in per nanosecond.
fn whole(tokens: u64, elapsed: u128, rate: u64, max: u64) -> Refill {
    let sum = (tokens as u128).saturating_add(elapsed.saturating_mul(rate as u128));
    let now = sum.min(max as u128) as u64;
    Refill { tokens: now, below_max: now < max, spent: now.checked_sub(10) }
}

#[test]
fn no_span_of_time_sees_more_than_the_limit() {
    let mut limiter = RateLimiter::new(45, 3, whole);
    let mut accepted: Vec<u128> = Vec::new();
    let mut now: u128 = 0;
    let mut x: u64 = 12345;
    for _ in 0..2000 {
        x = x.wrapping_mul(6364136223846793005).wrapping_add(1442695040888963407);
        now += ((x >> 60) * (x >> 62)) as u128;
        if limiter.filter_at(LOCAL, now) {
            accepted.push(now);
        }
        limiter.filter_at(OTHER, now);
    }
    for i in 0..accepted.len() {
        for j in i..accepted.len() {
            assert!(10 * (j - i + 1) as u128 <= 45 + 3 * (accepted[j] - accepted[i]));
        }
    }
}

#[test]
fn other_clients_change_no_answer() {
    let mut crowded = limiter(3.0, 0.1);
    let mut quiet = limiter(3.0, 0.1);
    let mut now: u128 = 0;
    let mut x: u64 = 99;
    for k in 0..3000u32 {
        x = x.wrapping_mul(6364136223846793005).wrapping_add(1442695040888963407);
        now += (x >> 58) as u128 * NANOS_PER_SEC / 3;
        if k % 7 == 0 {
            assert_eq!(crowded.filter_at(LOCAL, now), quiet.filter_at(LOCAL, now));
        } else {
            crowded.filter_at(IpAddr::V6((x >> 50) as u128), now);
        }
    }
}

#[test]
fn a_limit_below_one_lets_nobody_through() {
    let mut limiter = limiter(0.5, 100.0);
    assert!(!limiter.filter_at(LOCAL, 0));
    assert!(!limiter.filter_at(LOCAL, 1000 * NANOS_PER_SEC));
}

#[test]
fn a_chain_stops_at_the_first_filter_that_rejects() {
    let mut chain = MiddlewareChain::new();
    chain.add(limiter(1.0, 0.0));
    chain.add(limiter(5.0, 0.0));
    let ctx = chain.execute(LOCAL).unwrap();
    assert_eq!(ctx.client_ip, LOCAL);
    assert_eq!(ctx.target_backend, None);
    assert_eq!(chain.execute(LOCAL).err(), Some("RateLimiter"));
    // The second filter was asked once only.
    for _ in 0..4 {
        assert!(chain.middlewares[1].filter(LOCAL));
    }
    assert!(!chain.middlewares[1].filter(LOCAL));
}

#[test]
fn an_empty_chain_accepts() {
    let mut chain: MiddlewareChain<LoadBalancer> = MiddlewareChain::new();
    assert!(chain.execute(LOCAL).is_ok());
}

#[test]
fn an_intake_limits_and_then_chooses() {
    let lb = LoadBalancer::new(vec!["a".to_string()], LoadBalanceMode::RoundRobin);
    let limit = RateLimitConfig { max_requests: 2f64.to_bits(), refill_rate: 0f64.to_bits() };
    let mut intake = Intake::new(Some(limit), lb, refill);
    assert_eq!(intake.enter(LOCAL), Ok("a".to_string()));
    for _ in 0..3 {
        intake.record_failure("a");
    }
    assert_eq!(intake.enter(LOCAL), Err("LoadBalancer"));
    assert_eq!(intake.enter(LOCAL), Err("RateLimiter"));
}

#[test]
fn an_intake_without_a_limit_only_chooses() {
    let lb = LoadBalancer::new(vec!["a".to_string()], LoadBalanceMode::RoundRobin);
    let mut intake = Intake::new(None, lb, refill);
    for _ in 0..100 {
        assert_eq!(intake.enter(OTHER), Ok("a".to_string()));
    }
    intake.record_failure("a");
    intake.record_failure("a");
    intake.record_success("a");
    intake.record_failure("a");
    assert_eq!(intake.enter(OTHER), Ok("a".to_string()));
}
