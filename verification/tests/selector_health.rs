//! Upstream selector and health supervisor tests.

use jito_relayer::health::{check_health, HealthManager, HealthState, StatusError};
use jito_relayer::selector::LoadBalancer;

#[test]
fn test_slot_monotonicity_with_two_sources() {
    // source X emits 10, 11, 12; source Y emits 9, 13, 14, interleaved;
    // the published stream is a strictly increasing subsequence drawn from
    // {10, 11, 12, 13, 14}, ending at 14
    let mut sources = LoadBalancer::new(2);
    let events: Vec<(usize, u64)> =
        vec![(0, 10), (1, 9), (0, 11), (1, 13), (0, 12), (1, 14)];
    let mut published: Vec<u64> = Vec::new();
    for (src, slot) in events {
        if let Some(p) = sources.record_slot(src, slot) {
            published.push(p);
        }
    }
    assert_eq!(published, vec![10, 11, 13, 14]);
    for w in published.windows(2) {
        assert!(w[0] < w[1]);
    }
    assert_eq!(*published.last().expect("nonempty"), 14);
}

#[test]
fn test_duplicate_slot_not_republished() {
    let mut sources = LoadBalancer::new(1);
    assert_eq!(sources.record_slot(0, 5), Some(5));
    assert_eq!(sources.record_slot(0, 5), None);
    assert_eq!(sources.record_slot(0, 4), None);
    assert_eq!(sources.record_slot(0, 6), Some(6));
}

#[test]
fn test_get_highest_slot_routes_to_freshest() {
    let mut sources = LoadBalancer::new(3);
    sources.record_slot(0, 7);
    sources.record_slot(1, 12);
    sources.record_slot(2, 3);
    let (best, slot) = sources.get_highest_slot();
    assert_eq!(best, 1);
    assert_eq!(slot, 12);
    // the freshest source changes when another overtakes it
    sources.record_slot(2, 20);
    let (best, slot) = sources.get_highest_slot();
    assert_eq!(best, 2);
    assert_eq!(slot, 20);
}

#[test]
fn test_health_threshold() {
    let mut monitor = HealthManager::new(0);
    // a slot arrived at t=1_000_000; within the threshold the relayer is
    // healthy, beyond it unhealthy
    monitor.on_slot(42, 1_000_000);
    assert_eq!(monitor.evaluate(5_000_000, 10_000_000), HealthState::Healthy);
    assert_eq!(monitor.evaluate(11_000_000, 10_000_000), HealthState::Healthy);
    assert_eq!(monitor.evaluate(11_000_001, 10_000_000), HealthState::Unhealthy);
    // a new slot restores health
    monitor.on_slot(43, 12_000_000);
    assert_eq!(monitor.evaluate(13_000_000, 10_000_000), HealthState::Healthy);
}

#[test]
fn test_health_monitor_republishes_slot() {
    let mut monitor = HealthManager::new(0);
    assert_eq!(monitor.on_slot(7, 100), 7);
}

#[test]
fn test_check_health_gate() {
    assert!(check_health(HealthState::Healthy).is_ok());
    assert_eq!(check_health(HealthState::Unhealthy), Err(StatusError::Internal));
}
