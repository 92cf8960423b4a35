use route_stats::error::StatsError;
use route_stats::estimator::EstimatorConfig;
use route_stats::record::{QuantileEstimate, StatusClass};
use route_stats::registry::{Ingest, Registry};
use route_stats::rotation::{RotationMode, RotationPolicy};

fn shape() -> EstimatorConfig {
    EstimatorConfig { bucket_count: 1_000, bucket_width: 1_000 }
}

fn cumulative() -> RotationPolicy {
    RotationPolicy { mode: RotationMode::Cumulative, window: 0 }
}

fn windowed(window: u64) -> RotationPolicy {
    RotationPolicy { mode: RotationMode::Windowed, window }
}

fn registry() -> Registry {
    Registry::new(shape(), 16, cumulative()).unwrap()
}

#[test]
fn registry_new_rejects_bad_configuration() {
    let bad_shape = EstimatorConfig { bucket_count: 0, bucket_width: 1_000 };
    assert_eq!(
        Registry::new(bad_shape, 16, cumulative()).err(),
        Some(StatsError::InvalidConfiguration)
    );
    assert_eq!(
        Registry::new(shape(), 0, cumulative()).err(),
        Some(StatsError::InvalidConfiguration)
    );
    assert_eq!(
        Registry::new(shape(), 16, windowed(0)).err(),
        Some(StatsError::InvalidConfiguration)
    );
    assert!(Registry::new(shape(), 16, windowed(1)).is_ok());
}

#[test]
fn five_durations_for_one_route() {
    let mut reg = registry();
    for ms in [10i64, 20, 30, 40, 50] {
        assert_eq!(reg.record("/a", ms * 1_000, StatusClass::Success), Ingest::Recorded);
    }
    let snap = reg.get_stats("/a", &vec![5_000]);
    assert_eq!(snap.count, 5);
    assert_eq!(snap.sum, 150_000);
    assert_eq!(snap.mean, Ok(30_000));
    assert_eq!(snap.min, Some(10_000));
    assert_eq!(snap.max, Some(50_000));
    let p50 = snap.quantiles.unwrap()[0];
    assert_eq!(p50.p, 5_000);
    assert!(p50.value.abs_diff(30_000) < shape().bucket_width);
    assert_eq!(p50.value, 30_500);
}

#[test]
fn never_observed_route_has_no_record() {
    let mut reg = registry();
    reg.record("/b", 1_500, StatusClass::Success);
    let all = reg.snapshot_all(&vec![5_000]);
    assert_eq!(all.len(), 1);
    assert_eq!(all[0].route, "/b");
    assert_eq!(all[0].stats.count, 1);
    assert!(all.iter().all(|s| s.route != "/c"));
    assert_eq!(reg.route_count(), 1);
    assert_eq!(reg.get_stats("/c", &vec![5_000]).count, 0);
    assert_eq!(reg.route_count(), 1);
}

#[test]
fn routes_are_listed_in_order_of_first_observation() {
    let mut reg = registry();
    reg.record("/x", 1, StatusClass::Success);
    reg.record("/y", 2, StatusClass::Success);
    reg.record("/x", 3, StatusClass::Success);
    reg.record("/z", 4, StatusClass::Success);
    let all = reg.snapshot_all(&vec![]);
    let routes: Vec<&str> = all.iter().map(|s| s.route.as_str()).collect();
    assert_eq!(routes, vec!["/x", "/y", "/z"]);
    assert_eq!(all[0].stats.count, 2);
    assert_eq!(all[0].stats.sum, 4);
    assert_eq!(all[1].stats.count, 1);
    assert_eq!(all[2].stats.count, 1);
    assert_eq!(reg.route_count(), 3);
}

#[test]
fn empty_route_counts_as_unknown() {
    let mut reg = registry();
    reg.record("", 5, StatusClass::Success);
    reg.record("unknown", 7, StatusClass::Success);
    assert_eq!(reg.route_count(), 1);
    let all = reg.snapshot_all(&vec![]);
    assert_eq!(all[0].route, "unknown");
    assert_eq!(all[0].stats.count, 2);
    assert_eq!(reg.get_stats("", &vec![]).sum, 12);
}

#[test]
fn negative_duration_counts_as_zero() {
    let mut reg = registry();
    assert_eq!(reg.record("/a", -250, StatusClass::Success), Ingest::Recorded);
    assert_eq!(reg.record("/a", i64::MIN, StatusClass::Success), Ingest::Recorded);
    let snap = reg.get_stats("/a", &vec![5_000]);
    assert_eq!(snap.count, 2);
    assert_eq!(snap.sum, 0);
    assert_eq!(snap.min, Some(0));
    assert_eq!(snap.max, Some(0));
    assert_eq!(snap.quantiles, Ok(vec![QuantileEstimate { p: 5_000, value: 0 }]));
}

#[test]
fn new_route_beyond_the_limit_is_dropped() {
    let mut reg = Registry::new(shape(), 2, cumulative()).unwrap();
    assert_eq!(reg.record("/a", 1, StatusClass::Success), Ingest::Recorded);
    assert_eq!(reg.record("/b", 1, StatusClass::Success), Ingest::Recorded);
    assert_eq!(reg.record("/c", 1, StatusClass::Success), Ingest::RouteCardinalityExceeded);
    assert_eq!(reg.route_count(), 2);
    assert_eq!(reg.get_stats("/c", &vec![]).count, 0);
    assert_eq!(reg.record("/a", 1, StatusClass::Success), Ingest::Recorded);
    assert_eq!(reg.get_stats("/a", &vec![]).count, 2);
}

#[test]
fn hundred_times_thousand_records_are_all_counted() {
    let mut reg = registry();
    for _ in 0..100u32 {
        for _ in 0..1_000u32 {
            reg.record("/hot", 1_000, StatusClass::Success);
        }
    }
    let snap = reg.get_stats("/hot", &vec![]);
    assert_eq!(snap.count, 100_000);
    assert_eq!(snap.sum, 100_000_000);
    assert_eq!(snap.status.success, 100_000);
}

#[test]
fn reset_all_gives_empty_stats_for_every_route() {
    let mut reg = registry();
    reg.record("/a", 10_000, StatusClass::Success);
    reg.record("/b", 20_000, StatusClass::ServerError);
    reg.reset_all();
    for route in ["/a", "/b", "/never"] {
        let snap = reg.get_stats(route, &vec![5_000]);
        assert_eq!(snap.count, 0);
        assert_eq!(snap.sum, 0);
        assert_eq!(snap.mean, Err(StatsError::NoData));
        assert_eq!(snap.quantiles, Err(StatsError::EmptyDistribution));
    }
    assert_eq!(reg.route_count(), 2);
    reg.reset_all();
    assert_eq!(reg.get_stats("/a", &vec![]).count, 0);
    reg.record("/a", 30_000, StatusClass::Success);
    assert_eq!(reg.get_stats("/a", &vec![]).sum, 30_000);
}

#[test]
fn reset_route_clears_that_route_only() {
    let mut reg = registry();
    reg.record("/a", 10_000, StatusClass::Success);
    reg.record("/b", 20_000, StatusClass::Success);
    assert!(reg.reset_route("/a"));
    assert!(!reg.reset_route("/never"));
    assert_eq!(reg.get_stats("/a", &vec![]).count, 0);
    assert_eq!(reg.get_stats("/b", &vec![]).count, 1);
    assert_eq!(reg.route_count(), 2);
}

#[test]
fn cumulative_policy_never_rotates() {
    let mut reg = registry();
    reg.record("/a", 10_000, StatusClass::Success);
    assert!(!reg.tick(0));
    assert!(!reg.tick(u64::MAX));
    assert_eq!(reg.get_stats("/a", &vec![]).count, 1);
    assert_eq!(reg.completed_window(&vec![]).len(), 0);
}

#[test]
fn windowed_policy_rotates_once_the_window_is_over() {
    let mut reg = Registry::new(shape(), 16, windowed(1_000)).unwrap();
    reg.record("/a", 10_000, StatusClass::Success);
    reg.record("/a", 30_000, StatusClass::Success);
    assert!(!reg.tick(999));
    assert_eq!(reg.get_stats("/a", &vec![]).count, 2);
    assert!(reg.tick(1_000));
    assert_eq!(reg.get_stats("/a", &vec![]).count, 0);
    let done = reg.completed_window(&vec![10_000]);
    assert_eq!(done.len(), 1);
    assert_eq!(done[0].route, "/a");
    assert_eq!(done[0].stats.count, 2);
    assert_eq!(done[0].stats.sum, 40_000);
    assert_eq!(done[0].stats.max, Some(30_000));
    // The next window began at 1000.
    assert!(!reg.tick(1_999));
    reg.record("/a", 5_000, StatusClass::Success);
    assert!(reg.tick(2_000));
    let done = reg.completed_window(&vec![]);
    assert_eq!(done[0].stats.count, 1);
    assert_eq!(done[0].stats.sum, 5_000);
    assert_eq!(reg.get_stats("/a", &vec![]).count, 0);
}

#[test]
fn clock_that_runs_backwards_does_not_rotate() {
    let mut reg = Registry::new(shape(), 16, windowed(10)).unwrap();
    reg.rotate(500);
    assert!(!reg.tick(100));
    assert!(!reg.tick(509));
    assert!(reg.tick(510));
}

#[test]
fn rotate_keeps_routes_and_counts_each_sample_once() {
    let mut reg = registry();
    reg.record("/a", 1, StatusClass::Success);
    reg.record("/b", 2, StatusClass::Success);
    reg.rotate(7);
    assert_eq!(reg.route_count(), 2);
    let live: u64 = reg.snapshot_all(&vec![]).iter().map(|s| s.stats.count).sum();
    let done: u64 = reg.completed_window(&vec![]).iter().map(|s| s.stats.count).sum();
    assert_eq!(live, 0);
    assert_eq!(done, 2);
}

#[test]
fn configure_rotation_rejects_window_of_no_length() {
    let mut reg = registry();
    reg.record("/a", 1, StatusClass::Success);
    assert_eq!(reg.configure_rotation(windowed(0), 5), Err(StatsError::InvalidConfiguration));
    assert!(!reg.tick(u64::MAX));
    assert_eq!(reg.configure_rotation(windowed(100), 50), Ok(()));
    assert!(!reg.tick(149));
    assert!(reg.tick(150));
    assert_eq!(reg.configure_rotation(cumulative(), 150), Ok(()));
    assert!(!reg.tick(u64::MAX));
}

#[test]
fn policy_validity_and_due_time() {
    assert!(cumulative().is_valid());
    assert!(windowed(1).is_valid());
    assert!(!windowed(0).is_valid());
    assert!(!cumulative().is_due(0, u64::MAX));
    assert!(windowed(10).is_due(5, 15));
    assert!(!windowed(10).is_due(5, 14));
    assert!(!windowed(10).is_due(5, 4));
}

#[test]
fn rotation_mode_is_read_from_its_label() {
    assert_eq!(RotationMode::from_label("cumulative"), Some(RotationMode::Cumulative));
    assert_eq!(RotationMode::from_label("windowed"), Some(RotationMode::Windowed));
    assert_eq!(RotationMode::from_label(""), None);
    assert_eq!(RotationMode::from_label("Windowed"), None);
    assert_eq!(RotationMode::from_label("windowed "), None);
}
