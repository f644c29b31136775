use spectra_proxy::addr::IpAddr;
use spectra_proxy::clock::{Clock, MAX_SPAN};
use spectra_proxy::config::LoadBalanceMode;
use spectra_proxy::middleware::load_balancer::{
    BackendNode, BreakerState, LoadBalancer, COOLDOWN, MAX_FAILURES,
};
use spectra_proxy::middleware::{ConnectionContext, Middleware};

fn backends(list: &[&str]) -> Vec<String> {
    list.iter().map(|s| s.to_string()).collect()
}

#[test]
fn test_load_balancer_round_robin() {
    let mut lb = LoadBalancer::new(
        vec!["127.0.0.1:8081".to_string(), "127.0.0.1:8082".to_string()],
        LoadBalanceMode::RoundRobin,
    );

    // Should alternate between backends in round-robin fashion
    let first = lb.select().unwrap();
    let second = lb.select().unwrap();
    let third = lb.select().unwrap();

    assert_ne!(first, second);
    assert_eq!(first, third);
}

#[test]
fn test_load_balancer_random() {
    let mut lb = LoadBalancer::new(
        vec!["127.0.0.1:8081".to_string(), "127.0.0.1:8082".to_string()],
        LoadBalanceMode::Random,
    );

    let selection = lb.select();
    assert!(selection.is_some());
    let addr = selection.unwrap();
    assert!(addr == "127.0.0.1:8081" || addr == "127.0.0.1:8082");
}

#[test]
fn test_circuit_breaker_tripping_and_recovery() {
    let mut lb = LoadBalancer::new(
        vec!["127.0.0.1:8081".to_string()],
        LoadBalanceMode::RoundRobin,
    );

    // Initially healthy
    assert!(lb.select().is_some());

    // Trip the circuit breaker with 3 consecutive failures
    lb.record_failure("127.0.0.1:8081");
    lb.record_failure("127.0.0.1:8081");
    lb.record_failure("127.0.0.1:8081");

    // The only backend is tripped, so select should return None!
    assert!(lb.select().is_none());

    // Trip it again with a time out that is over at once
    lb.nodes[0].record_failure(1, 0);

    // It should now be tried again
    let prob_addr = lb.select();
    assert_eq!(prob_addr, Some("127.0.0.1:8081".to_string()));

    // A success makes it healthy
    lb.record_success("127.0.0.1:8081");

    // Should remain healthy
    assert!(lb.select().is_some());
}

#[test]
fn test_middleware_trait_integration() {
    let mut lb = LoadBalancer::new(
        vec!["127.0.0.1:8081".to_string()],
        LoadBalanceMode::RoundRobin,
    );

    // 127.0.0.1
    let mut ctx = ConnectionContext::new(IpAddr::V4(0x7f00_0001));
    let handled = lb.handle(&mut ctx);

    assert!(handled);
    assert_eq!(ctx.target_backend, Some("127.0.0.1:8081".to_string()));
    assert_eq!(lb.name(), "LoadBalancer");
}

#[test]
fn a_round_visits_every_backend_once() {
    let mut lb = LoadBalancer::new(backends(&["a", "b", "c"]), LoadBalanceMode::RoundRobin);
    let round: Vec<String> = (0..6).map(|_| lb.select_at(0, 0).unwrap()).collect();
    assert_eq!(round, backends(&["a", "b", "c", "a", "b", "c"]));
}

#[test]
fn tripped_backends_are_passed_over() {
    let mut lb = LoadBalancer::new(backends(&["a", "b", "c"]), LoadBalanceMode::RoundRobin);
    for _ in 0..3 {
        lb.record_failure_at("b", 5);
    }
    assert_eq!(lb.nodes[1].state, BreakerState::Open { until: 5 + COOLDOWN });
    let round: Vec<String> = (0..4).map(|_| lb.select_at(6, 0).unwrap()).collect();
    // The successor of a tripped backend takes its turn.
    assert_eq!(round, backends(&["a", "c", "a", "c"]));
    assert_eq!(lb.count_available(6), 2);
    assert_eq!(lb.count_available(5 + COOLDOWN), 3);
}

#[test]
fn a_failed_trial_trips_again() {
    let mut lb = LoadBalancer::new(backends(&["a"]), LoadBalanceMode::RoundRobin);
    for _ in 0..3 {
        lb.record_failure_at("a", 0);
    }
    assert_eq!(lb.select_at(COOLDOWN - 1, 0), None);
    assert_eq!(lb.select_at(COOLDOWN, 0), Some("a".to_string()));
    assert_eq!(lb.nodes[0].state, BreakerState::HalfOpen);
    lb.record_failure_at("a", COOLDOWN);
    assert_eq!(lb.nodes[0].state, BreakerState::Open { until: 2 * COOLDOWN });
    assert_eq!(lb.select_at(2 * COOLDOWN - 1, 0), None);
}

#[test]
fn a_success_forgets_failures_but_leaves_a_tripped_breaker() {
    let mut node = BackendNode::new("a".to_string());
    node.record_failure_at(MAX_FAILURES, COOLDOWN, 0);
    node.record_failure_at(MAX_FAILURES, COOLDOWN, 0);
    assert_eq!(node.consecutive_failures, 2);
    node.record_success();
    assert_eq!(node.consecutive_failures, 0);
    assert_eq!(node.state, BreakerState::Closed);
    for _ in 0..3 {
        node.record_failure_at(MAX_FAILURES, COOLDOWN, 0);
    }
    node.record_success();
    assert_eq!(node.state, BreakerState::Open { until: COOLDOWN });
    assert_eq!(node.consecutive_failures, 0);
    assert!(!node.is_available());
    assert!(node.is_available_at(COOLDOWN));
    node.record_success();
    assert_eq!(node.state, BreakerState::Closed);
}

#[test]
fn failures_stay_with_their_address() {
    let mut lb = LoadBalancer::new(backends(&["a", "b", "a"]), LoadBalanceMode::RoundRobin);
    lb.record_failure_at("a", 0);
    assert_eq!(lb.nodes[0].consecutive_failures, 1);
    assert_eq!(lb.nodes[1].consecutive_failures, 0);
    assert_eq!(lb.nodes[2].consecutive_failures, 0);
    lb.record_failure_at("elsewhere", 0);
    assert_eq!(lb.nodes[0].consecutive_failures, 1);
    lb.record_success("a");
    assert_eq!(lb.nodes[0].consecutive_failures, 0);
}

#[test]
fn a_draw_picks_among_the_available_backends() {
    let mut lb = LoadBalancer::new(backends(&["a", "b", "c"]), LoadBalanceMode::Random);
    for _ in 0..3 {
        lb.record_failure_at("a", 0);
    }
    assert_eq!(lb.select_at(1, 0), Some("b".to_string()));
    assert_eq!(lb.select_at(1, 1), Some("c".to_string()));
    for _ in 0..50 {
        let choice = lb.select().unwrap();
        assert!(choice == "b" || choice == "c");
    }
}

#[test]
fn random_choices_reach_every_backend() {
    let mut lb = LoadBalancer::new(backends(&["a", "b"]), LoadBalanceMode::Random);
    let mut seen_a = false;
    let mut seen_b = false;
    for _ in 0..1000 {
        let choice = lb.select().unwrap();
        seen_a = seen_a || choice == "a";
        seen_b = seen_b || choice == "b";
    }
    assert!(seen_a && seen_b);
}

#[test]
fn without_backends_nothing_is_chosen() {
    let mut lb = LoadBalancer::new(Vec::new(), LoadBalanceMode::RoundRobin);
    assert_eq!(lb.select(), None);
    let mut lb = LoadBalancer::new(Vec::new(), LoadBalanceMode::Random);
    assert_eq!(lb.select(), None);
    let mut ctx = ConnectionContext::new(IpAddr::V6(1));
    assert!(!lb.handle(&mut ctx));
    assert_eq!(ctx.target_backend, None);
}

#[test]
fn backends_can_be_replaced() {
    let mut lb = LoadBalancer::new(backends(&["a", "b"]), LoadBalanceMode::RoundRobin);
    assert_eq!(lb.get_backends(), backends(&["a", "b"]));
    for _ in 0..3 {
        lb.record_failure_at("a", 0);
    }
    assert_eq!(lb.select_at(1, 0), Some("b".to_string()));
    lb.update_backends(backends(&["a", "d"]));
    assert_eq!(lb.get_backends(), backends(&["a", "d"]));
    assert_eq!(lb.nodes[0].state, BreakerState::Closed);
    assert_eq!(lb.select_at(1, 0), Some("a".to_string()));
}

#[test]
fn the_turn_counter_starts_again_behind_its_largest_value() {
    let mut lb = LoadBalancer::new(backends(&["a", "b"]), LoadBalanceMode::RoundRobin);
    lb.counter = usize::MAX;
    assert_eq!(lb.select_at(0, 0), Some("b".to_string()));
    assert_eq!(lb.counter, 0);
    assert_eq!(lb.select_at(0, 0), Some("a".to_string()));
}

#[test]
fn a_clock_shows_the_time_since_its_start() {
    let start = std::time::Instant::now();
    let clock = Clock::starting_at(start);
    assert_eq!(clock.read_at(start), 0);
    assert_eq!(clock.read_at(start + std::time::Duration::new(2, 5)), 2_000_000_005);
    let later = Clock::starting_at(start + std::time::Duration::from_secs(1));
    assert_eq!(later.read_at(start), 0);
}

#[test]
fn a_node_comes_back_by_its_clock() {
    let mut node = BackendNode::new("a".to_string());
    node.record_failure(1, 20_000_000);
    assert!(!node.is_available());
    let clock = Clock::start();
    while clock.read() < 21_000_000 {}
    assert!(node.is_available());
    assert_eq!(node.state, BreakerState::HalfOpen);
}

#[test]
fn the_clock_counts_up() {
    let clock = Clock::start();
    let first = clock.read();
    while clock.read() < first + 1_000_000 {}
    assert!(clock.read() >= first + 1_000_000);
    assert!(clock.read() <= MAX_SPAN);
}
