use route_stats::error::StatsError;
use route_stats::estimator::{Estimator, EstimatorConfig};

fn shape(bucket_count: usize, bucket_width: u64) -> EstimatorConfig {
    EstimatorConfig { bucket_count, bucket_width }
}

fn filled(config: EstimatorConfig, values: &[u64]) -> Estimator {
    let mut e = Estimator::new(config).unwrap();
    for v in values {
        assert!(e.observe(*v));
    }
    e
}

#[test]
fn new_rejects_zero_bucket_count() {
    assert_eq!(Estimator::new(shape(0, 10)).err(), Some(StatsError::InvalidConfiguration));
}

#[test]
fn new_rejects_zero_bucket_width() {
    assert_eq!(Estimator::new(shape(8, 0)).err(), Some(StatsError::InvalidConfiguration));
}

#[test]
fn new_rejects_bucket_count_without_room_for_overflow_bucket() {
    assert_eq!(
        Estimator::new(shape(usize::MAX, 1)).err(),
        Some(StatsError::InvalidConfiguration)
    );
}

#[test]
fn new_estimator_is_empty() {
    let e = Estimator::new(shape(8, 10)).unwrap();
    assert_eq!(e.total(), 0);
    assert_eq!(e.min(), None);
    assert_eq!(e.max(), None);
    assert_eq!(e.footprint(), 9);
    assert_eq!(e.config(), shape(8, 10));
}

#[test]
fn quantile_of_empty_estimator_is_empty_distribution() {
    let e = Estimator::new(shape(8, 10)).unwrap();
    assert_eq!(e.quantile(0), Err(StatsError::EmptyDistribution));
    assert_eq!(e.quantile(5_000), Err(StatsError::EmptyDistribution));
    assert_eq!(e.quantile(10_000), Err(StatsError::EmptyDistribution));
}

#[test]
fn observe_counts_and_tracks_extremes() {
    let e = filled(shape(10, 10), &[37, 5, 91, 5, 64]);
    assert_eq!(e.total(), 5);
    assert_eq!(e.min(), Some(5));
    assert_eq!(e.max(), Some(91));
}

#[test]
fn quantile_is_midpoint_of_rank_bucket() {
    // Buckets of width 10: 12 and 17 in bucket 1, 33 in bucket 3, 58 in bucket 5.
    let e = filled(shape(10, 10), &[12, 33, 17, 58]);
    // Rank 1 of 4 lies in bucket 1, whose midpoint is 15.
    assert_eq!(e.quantile(2_500), Ok(15));
    // Rank 2 of 4 lies in bucket 1 too.
    assert_eq!(e.quantile(5_000), Ok(15));
    // Rank 3 of 4 lies in bucket 3, whose midpoint is 35.
    assert_eq!(e.quantile(7_500), Ok(35));
    // Rank 4 of 4 lies in bucket 5, whose midpoint is 55.
    assert_eq!(e.quantile(10_000), Ok(55));
}

#[test]
fn quantile_zero_answers_like_rank_one() {
    let e = filled(shape(10, 10), &[12, 33, 17, 58]);
    assert_eq!(e.quantile(0), Ok(15));
}

#[test]
fn quantile_above_full_scale_answers_like_full_scale() {
    let e = filled(shape(10, 10), &[12, 33, 17, 58]);
    assert_eq!(e.quantile(u32::MAX), e.quantile(10_000));
}

#[test]
fn quantile_is_kept_between_min_and_max() {
    // Both samples lie in bucket 0, whose midpoint 50 is above the largest.
    let e = filled(shape(4, 100), &[3, 7]);
    assert_eq!(e.quantile(5_000), Ok(7));
    // The midpoint 150 of bucket 1 is below the smallest sample.
    let e = filled(shape(4, 100), &[180, 190]);
    assert_eq!(e.quantile(5_000), Ok(180));
}

#[test]
fn single_repeated_value_gives_that_value_for_every_quantile() {
    let e = filled(shape(16, 25), &[137; 40]);
    for p in [0u32, 1, 2_500, 5_000, 9_000, 9_900, 10_000] {
        assert_eq!(e.quantile(p), Ok(137));
    }
}

#[test]
fn zero_duration_is_observed() {
    let e = filled(shape(4, 10), &[0, 0, 0]);
    assert_eq!(e.total(), 3);
    assert_eq!(e.min(), Some(0));
    assert_eq!(e.quantile(5_000), Ok(0));
}

#[test]
fn outliers_fall_into_overflow_bucket() {
    // Clipping range is 4 * 10 = 40.
    let e = filled(shape(4, 10), &[5, 15, 1_000_000, u64::MAX]);
    assert_eq!(e.footprint(), 5);
    assert_eq!(e.total(), 4);
    assert_eq!(e.max(), Some(u64::MAX));
    // Ranks 3 and 4 lie in the overflow bucket, represented by the largest sample.
    assert_eq!(e.quantile(7_500), Ok(u64::MAX));
    assert_eq!(e.quantile(10_000), Ok(u64::MAX));
    // The common range keeps its precision.
    assert_eq!(e.quantile(2_500), Ok(5));
    assert_eq!(e.quantile(5_000), Ok(15));
}

#[test]
fn huge_bucket_width_does_not_overflow() {
    let e = filled(shape(2, u64::MAX), &[1, u64::MAX - 1]);
    assert_eq!(e.quantile(5_000), Ok(u64::MAX / 2));
    let e = filled(shape(2, u64::MAX), &[u64::MAX - 2, u64::MAX - 1]);
    assert_eq!(e.quantile(5_000), Ok(u64::MAX - 2));
    let e = filled(shape(2, u64::MAX), &[u64::MAX, u64::MAX]);
    assert_eq!(e.quantile(5_000), Ok(u64::MAX));
}

#[test]
fn median_of_uniform_samples_is_within_one_bucket_width() {
    let width: u64 = 50;
    let values: Vec<u64> = (1..=1_000u64).map(|i| (i * 7_919) % 10_000).collect();
    let e = filled(shape(400, width), &values);
    let mut sorted = values.clone();
    sorted.sort();
    let exact = sorted[499];
    let got = e.quantile(5_000).unwrap();
    assert!(got.abs_diff(exact) < width);
}

#[test]
fn every_quantile_of_skewed_samples_is_within_one_bucket_width() {
    let width: u64 = 20;
    let values: Vec<u64> = (1..=500u64).map(|i| (i * i) % 3_000).collect();
    let e = filled(shape(200, width), &values);
    let mut sorted = values.clone();
    sorted.sort();
    for p in [100u32, 2_500, 5_000, 9_000, 9_500, 9_900, 10_000] {
        let rank = ((p as usize * sorted.len()) + 9_999) / 10_000;
        let exact = sorted[rank.max(1) - 1];
        let got = e.quantile(p).unwrap();
        assert!(got.abs_diff(exact) < width);
    }
}

#[test]
fn footprint_stays_fixed_after_ten_million_samples() {
    let mut e = Estimator::new(shape(64, 1_000)).unwrap();
    let before = e.footprint();
    let mut x: u64 = 1;
    for _ in 0..10_000_000u32 {
        x = x.wrapping_mul(6_364_136_223_846_793_005).wrapping_add(1_442_695_040_888_963_407);
        e.observe(x >> 44);
    }
    assert_eq!(e.total(), 10_000_000);
    assert_eq!(e.footprint(), before);
    assert_eq!(e.footprint(), 65);
}

#[test]
fn reset_returns_to_empty_state() {
    let mut e = filled(shape(4, 10), &[5, 15, 25]);
    e.reset();
    assert_eq!(e.total(), 0);
    assert_eq!(e.min(), None);
    assert_eq!(e.max(), None);
    assert_eq!(e.footprint(), 5);
    assert_eq!(e.quantile(5_000), Err(StatsError::EmptyDistribution));
    assert!(e.observe(33));
    assert_eq!(e.quantile(5_000), Ok(33));
}

#[test]
fn fresh_is_empty_and_of_same_shape() {
    let e = filled(shape(4, 10), &[5, 15, 25]);
    let f = e.fresh();
    assert_eq!(f.total(), 0);
    assert_eq!(f.config(), e.config());
    assert_eq!(e.total(), 3);
}

#[test]
fn merge_adds_samples_of_both() {
    let mut a = filled(shape(10, 10), &[12, 33]);
    let b = filled(shape(10, 10), &[17, 58, 4]);
    assert_eq!(a.merge(&b), Ok(()));
    assert_eq!(a.total(), 5);
    assert_eq!(a.min(), Some(4));
    assert_eq!(a.max(), Some(58));
    assert_eq!(a.footprint(), 11);
    let whole = filled(shape(10, 10), &[12, 33, 17, 58, 4]);
    for p in [0u32, 2_000, 4_000, 5_000, 6_000, 8_000, 10_000] {
        assert_eq!(a.quantile(p), whole.quantile(p));
    }
}

#[test]
fn merge_with_empty_changes_nothing() {
    let mut a = filled(shape(10, 10), &[12, 33]);
    let b = Estimator::new(shape(10, 10)).unwrap();
    assert_eq!(a.merge(&b), Ok(()));
    assert_eq!(a.total(), 2);
    assert_eq!(a.min(), Some(12));
    assert_eq!(a.max(), Some(33));
    let mut c = Estimator::new(shape(10, 10)).unwrap();
    assert_eq!(c.merge(&a), Ok(()));
    assert_eq!(c.total(), 2);
    assert_eq!(c.min(), Some(12));
    assert_eq!(c.max(), Some(33));
}

#[test]
fn merge_is_commutative_and_associative() {
    let xs = [12u64, 33, 95];
    let ys = [17u64, 58];
    let zs = [4u64, 4, 71, 250];
    let cfg = shape(10, 10);
    let mut ab = filled(cfg, &xs);
    ab.merge(&filled(cfg, &ys)).unwrap();
    let mut ba = filled(cfg, &ys);
    ba.merge(&filled(cfg, &xs)).unwrap();
    let mut ab_c = filled(cfg, &xs);
    ab_c.merge(&filled(cfg, &ys)).unwrap();
    ab_c.merge(&filled(cfg, &zs)).unwrap();
    let mut bc = filled(cfg, &ys);
    bc.merge(&filled(cfg, &zs)).unwrap();
    let mut a_bc = filled(cfg, &xs);
    a_bc.merge(&bc).unwrap();
    assert_eq!(ab.total(), ba.total());
    assert_eq!(ab.min(), ba.min());
    assert_eq!(ab.max(), ba.max());
    assert_eq!(ab_c.total(), a_bc.total());
    assert_eq!(ab_c.min(), a_bc.min());
    assert_eq!(ab_c.max(), a_bc.max());
    for p in [0u32, 1_000, 3_000, 5_000, 7_000, 9_000, 10_000] {
        assert_eq!(ab.quantile(p), ba.quantile(p));
        assert_eq!(ab_c.quantile(p), a_bc.quantile(p));
    }
}

#[test]
fn merge_rejects_other_shape_and_changes_nothing() {
    let mut a = filled(shape(10, 10), &[12, 33]);
    let narrower = filled(shape(10, 5), &[1]);
    let shorter = filled(shape(9, 10), &[1]);
    assert_eq!(a.merge(&narrower), Err(StatsError::InvalidConfiguration));
    assert_eq!(a.merge(&shorter), Err(StatsError::InvalidConfiguration));
    assert_eq!(a.total(), 2);
    assert_eq!(a.min(), Some(12));
    assert_eq!(a.max(), Some(33));
}
