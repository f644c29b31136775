use spectra_proxy::metrics::{MetricsTracker, ServiceMetrics, ServiceMetricsSnapshot};

fn snapshot(tracker: &MetricsTracker, name: &str) -> Option<ServiceMetricsSnapshot> {
    tracker.get_all_snapshots().into_iter().find(|(n, _)| n == name).map(|(_, s)| s)
}

#[test]
fn counters_count() {
    let mut m = ServiceMetrics::new();
    assert_eq!(m, ServiceMetrics::default());
    m.inc_active_connections();
    m.inc_active_connections();
    m.dec_active_connections();
    m.add_rx(100);
    m.add_rx(20);
    m.add_tx(7);
    m.inc_requests();
    m.inc_errors();
    m.inc_errors();
    assert_eq!(
        m,
        ServiceMetrics {
            active_connections: 1,
            total_connections: 2,
            bytes_rx: 120,
            bytes_tx: 7,
            total_requests: 1,
            total_errors: 2,
        }
    );
}

#[test]
fn counters_start_again_behind_their_largest_value() {
    let mut m = ServiceMetrics::new();
    m.bytes_rx = u64::MAX;
    m.add_rx(2);
    assert_eq!(m.bytes_rx, 1);
    m.dec_active_connections();
    assert_eq!(m.active_connections, usize::MAX);
    m.inc_active_connections();
    assert_eq!(m.active_connections, 0);
}

#[test]
fn a_tracker_knows_the_services_it_was_made_with() {
    let tracker = MetricsTracker::new(&["a".to_string(), "b".to_string(), "a".to_string()]);
    let all = tracker.get_all_snapshots();
    assert_eq!(all.len(), 2);
    assert_eq!(snapshot(&tracker, "a").unwrap().total_connections, 0);
    assert!(snapshot(&tracker, "b").is_some());
    assert!(snapshot(&tracker, "c").is_none());
}

#[test]
fn what_is_counted_is_found_again_under_the_same_name() {
    let mut tracker = MetricsTracker::new(&["a".to_string()]);
    tracker.get("a").inc_requests();
    tracker.get("b").add_tx(9);
    tracker.get("a").inc_requests();
    assert_eq!(tracker.get("a").total_requests, 2);
    assert_eq!(snapshot(&tracker, "a").unwrap().total_requests, 2);
    assert_eq!(snapshot(&tracker, "a").unwrap().bytes_tx, 0);
    assert_eq!(snapshot(&tracker, "b").unwrap().bytes_tx, 9);
    assert_eq!(tracker.get_all_snapshots().len(), 2);
}

#[test]
fn a_name_has_one_set_of_counters() {
    let mut tracker = MetricsTracker::new(&[]);
    for k in 0..100u64 {
        tracker.get(if k % 3 == 0 { "a" } else { "b" }).add_rx(k);
        tracker.get("c").inc_errors();
    }
    assert_eq!(tracker.get("a").bytes_rx, (0..100).filter(|k| k % 3 == 0).sum::<u64>());
    assert_eq!(tracker.get("b").bytes_rx, (0..100).filter(|k| k % 3 != 0).sum::<u64>());
    assert_eq!(tracker.get("c").total_errors, 100);
    assert_eq!(tracker.get("c").bytes_rx, 0);
}
