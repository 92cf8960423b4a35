//! What holds of histograms and records after any sequence of samples.

use vstd::prelude::*;
use vstd::arithmetic::div_mod::{lemma_fundamental_div_mod, lemma_mod_pos_bound};
use crate::estimator::{
    lemma_empty,
    lemma_merged,
    lemma_observed,
    lemma_prefix_sum_monotone,
    lemma_prefix_sum_update,
    rank_bucket,
    rank_of,
    prefix_sum,
    EstimatorConfig,
    Histogram,
};
use crate::record::{lemma_recorded, RecordState, Sample};

verus! {

/// No value is negative.
pub open spec fn non_negative(values: Seq<int>) -> bool {
    forall|i: int| 0 <= i < values.len() ==> #[trigger] values[i] >= 0
}

/// Number of values that lie below `bound`.
pub open spec fn count_below(values: Seq<int>, bound: int) -> int
    decreases values.len(),
{
    if values.len() == 0 {
        0
    } else {
        count_below(values.drop_last(), bound) + if values.last() < bound {
            1int
        } else {
            0int
        }
    }
}

/// The durations of `samples`, in order.
pub open spec fn durations(samples: Seq<Sample>) -> Seq<int> {
    Seq::new(samples.len(), |i: int| samples[i].duration as int)
}

/// Exact sum of the durations of `samples`.
pub open spec fn duration_sum(samples: Seq<Sample>) -> int
    decreases samples.len(),
{
    if samples.len() == 0 {
        0
    } else {
        duration_sum(samples.drop_last()) + samples.last().duration
    }
}

/// Any sequence of samples keeps a histogram well formed and its number of
/// counters fixed, and raises its sample count by the length of the
/// sequence.
pub proof fn lemma_replay(h: Histogram, values: Seq<int>)
    requires
        h.wf(),
        non_negative(values),
    ensures
        h.replay(values).wf(),
        h.replay(values).same_shape(h),
        h.replay(values).counts.len() == h.counts.len(),
        h.replay(values).total() == h.total() + values.len(),
    decreases values.len(),
{
    if values.len() > 0 {
        lemma_replay(h, values.drop_last());
        lemma_observed(h.replay(values.drop_last()), values.last());
    }
}

/// After any non-empty sequence of samples, the smallest and the largest
/// value that an estimator reports are the smallest and the largest of the
/// samples.
pub proof fn lemma_replay_extremes(config: EstimatorConfig, values: Seq<int>)
    requires
        config.valid(),
        values.len() > 0,
        non_negative(values),
    ensures
        ({
            let h = Histogram::empty(config).replay(values);
            &&& forall|i: int| 0 <= i < values.len() ==> h.low <= #[trigger] values[i] <= h.high
            &&& exists|i: int| 0 <= i < values.len() && #[trigger] values[i] == h.low
            &&& exists|i: int| 0 <= i < values.len() && #[trigger] values[i] == h.high
        }),
    decreases values.len(),
{
    let e = Histogram::empty(config);
    let front = values.drop_last();
    let last = values.last();
    let hf = e.replay(front);
    let h = e.replay(values);
    let n = values.len() as int;
    lemma_empty(config);
    lemma_replay(e, front);
    assert(h == hf.observed(last));
    if front.len() == 0 {
        assert(h.low == last && h.high == last);
        assert(values[0] == last);
    } else {
        lemma_replay_extremes(config, front);
        let i_low = choose|i: int| 0 <= i < front.len() && #[trigger] front[i] == hf.low;
        let i_high = choose|i: int| 0 <= i < front.len() && #[trigger] front[i] == hf.high;
        assert(values[i_low] == front[i_low]);
        assert(values[i_high] == front[i_high]);
        assert(values[n - 1] == last);
        assert forall|i: int| 0 <= i < n implies h.low <= #[trigger] values[i] <= h.high by {
            if i < n - 1 {
                assert(front[i] == values[i]);
            }
        }
        if last < hf.low {
            assert(values[n - 1] == h.low);
        } else {
            assert(values[i_low] == h.low);
        }
        if last > hf.high {
            assert(values[n - 1] == h.high);
        } else {
            assert(values[i_high] == h.high);
        }
    }
}

/// After any number of samples of one value, every quantile is that value.
pub proof fn lemma_single_value(config: EstimatorConfig, values: Seq<int>, v: int, p: int)
    requires
        config.valid(),
        values.len() > 0,
        v >= 0,
        forall|i: int| 0 <= i < values.len() ==> #[trigger] values[i] == v,
    ensures
        Histogram::empty(config).replay(values).estimate(p) == v,
{
    lemma_replay_extremes(config, values);
}

/// Merging is commutative.
pub proof fn lemma_merged_commutative(a: Histogram, b: Histogram)
    requires
        a.wf(),
        b.wf(),
        a.same_shape(b),
    ensures
        a.merged(b) == b.merged(a),
{
    assert(a.merged(b).counts =~= b.merged(a).counts);
}

/// Merging is associative.
pub proof fn lemma_merged_associative(a: Histogram, b: Histogram, c: Histogram)
    requires
        a.wf(),
        b.wf(),
        c.wf(),
        a.same_shape(b),
        b.same_shape(c),
    ensures
        a.merged(b).merged(c) == a.merged(b.merged(c)),
{
    let n = a.counts.len() as int;
    lemma_merged(a, b);
    lemma_merged(b, c);
    lemma_prefix_sum_monotone(a.counts, 0, n);
    lemma_prefix_sum_monotone(b.counts, 0, n);
    lemma_prefix_sum_monotone(c.counts, 0, n);
    assert(a.merged(b).merged(c).counts =~= a.merged(b.merged(c)).counts);
}

/// `count_below` counts some of the values: when it is positive a value lies
/// below the bound, and when it is less than their number a value lies at or
/// above the bound.
pub proof fn lemma_count_below(values: Seq<int>, bound: int)
    ensures
        0 <= count_below(values, bound) <= values.len(),
        count_below(values, bound) > 0 ==> exists|i: int|
            0 <= i < values.len() && #[trigger] values[i] < bound,
        count_below(values, bound) < values.len() ==> exists|i: int|
            0 <= i < values.len() && #[trigger] values[i] >= bound,
    decreases values.len(),
{
    if values.len() > 0 {
        let front = values.drop_last();
        let n = values.len() as int;
        lemma_count_below(front, bound);
        if count_below(values, bound) > 0 {
            if values.last() < bound {
                assert(values[n - 1] < bound);
            } else {
                let i = choose|i: int| 0 <= i < front.len() && #[trigger] front[i] < bound;
                assert(values[i] == front[i]);
            }
        }
        if count_below(values, bound) < values.len() {
            if values.last() >= bound {
                assert(values[n - 1] >= bound);
            } else {
                let i = choose|i: int| 0 <= i < front.len() && #[trigger] front[i] >= bound;
                assert(values[i] == front[i]);
            }
        }
    }
}

/// A value falls into a bucket before the `k`-th exactly when it lies below
/// `k` bucket widths.
pub proof fn lemma_bucket_below(h: Histogram, v: int, k: int)
    requires
        h.wf(),
        v >= 0,
        0 <= k <= h.buckets(),
    ensures
        h.bucket_of(v) < k <==> v < k * h.width,
{
    let w = h.width;
    let q = v / w;
    let r = v % w;
    lemma_fundamental_div_mod(v, w);
    lemma_mod_pos_bound(v, w);
    assert(q < k <==> v < k * w) by (nonlinear_arith)
        requires
            v == w * q + r,
            0 <= r < w,
    ;
    if q >= h.buckets() {
        assert(q >= k);
    }
}

/// The first `k` buckets hold exactly the samples that lie below `k` bucket
/// widths.
pub proof fn lemma_prefix_counts_below(config: EstimatorConfig, values: Seq<int>, k: int)
    requires
        config.valid(),
        non_negative(values),
        0 <= k <= config.bucket_count,
    ensures
        prefix_sum(Histogram::empty(config).replay(values).counts, k) == count_below(
            values,
            k * config.bucket_width,
        ),
    decreases values.len(),
{
    let e = Histogram::empty(config);
    lemma_empty(config);
    if values.len() == 0 {
        lemma_prefix_sum_monotone(e.counts, k, e.counts.len() as int);
        lemma_prefix_sum_monotone(e.counts, 0, k);
    } else {
        let front = values.drop_last();
        let v = values.last();
        let hf = e.replay(front);
        lemma_replay(e, front);
        lemma_prefix_counts_below(config, front, k);
        lemma_observed(hf, v);
        let i = hf.bucket_of(v);
        lemma_prefix_sum_update(hf.counts, i, hf.counts[i] + 1, k);
        lemma_bucket_below(hf, v, k);
    }
}

/// Where the running total stays below rank `r` up to bucket `k`, the bucket
/// chosen for `r` is the first at which the running total reaches `r`.
pub proof fn lemma_rank_bucket(counts: Seq<int>, r: int, k: int)
    requires
        0 <= k < counts.len(),
        prefix_sum(counts, k) < r <= prefix_sum(counts, counts.len() as int),
    ensures
        k <= rank_bucket(counts, r, k) < counts.len(),
        prefix_sum(counts, rank_bucket(counts, r, k)) < r,
        prefix_sum(counts, rank_bucket(counts, r, k) + 1) >= r,
    decreases counts.len() - k,
{
    if !(k + 1 >= counts.len() || prefix_sum(counts, k + 1) >= r) {
        lemma_rank_bucket(counts, r, k + 1);
    }
}

/// The error bound of the estimator. Let `r` be the rank that quantile `p`
/// asks for among the samples and `b` the bucket chosen for it. Then fewer
/// than `r` samples lie below bucket `b` and, unless `b` is the overflow
/// bucket, at least `r` samples lie below its upper edge: the sample of rank
/// `r` lies in bucket `b`. The estimate lies in that bucket too, and between
/// the smallest and the largest sample, so the two differ by less than one
/// bucket width.
pub proof fn lemma_estimate_within_bucket(config: EstimatorConfig, values: Seq<int>, p: int)
    requires
        config.valid(),
        values.len() > 0,
        non_negative(values),
    ensures
        ({
            let h = Histogram::empty(config).replay(values);
            let w = config.bucket_width as int;
            let r = rank_of(p, values.len() as int);
            let b = rank_bucket(h.counts, r, 0);
            let e = h.estimate(p);
            &&& 1 <= r <= values.len()
            &&& 0 <= b <= config.bucket_count
            &&& count_below(values, b * w) < r
            &&& b < config.bucket_count ==> count_below(values, b * w + w) >= r
            &&& b * w <= e
            &&& b < config.bucket_count ==> e < b * w + w
            &&& h.low <= e <= h.high
        }),
{
    let start = Histogram::empty(config);
    let h = start.replay(values);
    let w = config.bucket_width as int;
    let r = rank_of(p, values.len() as int);
    let b = rank_bucket(h.counts, r, 0);
    lemma_empty(config);
    lemma_replay(start, values);
    lemma_replay_extremes(config, values);
    lemma_rank_bucket(h.counts, r, 0);
    lemma_prefix_counts_below(config, values, b);
    lemma_count_below(values, b * w);
    let i_high = choose|i: int| 0 <= i < values.len() && #[trigger] values[i] >= b * w;
    assert(h.high >= values[i_high]);
    if b < config.bucket_count {
        lemma_prefix_counts_below(config, values, b + 1);
        assert((b + 1) * w == b * w + w) by (nonlinear_arith);
        lemma_count_below(values, b * w + w);
        let i_low = choose|i: int| 0 <= i < values.len() && #[trigger] values[i] < b * w + w;
        assert(h.low <= values[i_low]);
    }
}

/// Raising the bound never lowers the number of values below it.
pub proof fn lemma_count_below_monotone(values: Seq<int>, low: int, high: int)
    requires
        low <= high,
    ensures
        count_below(values, low) <= count_below(values, high),
    decreases values.len(),
{
    if values.len() > 0 {
        lemma_count_below_monotone(values.drop_last(), low, high);
    }
}

/// The error bound against the exact quantile. Let `s` be the sample of the
/// rank that quantile `p` asks for: fewer samples than the rank lie below
/// `s`, and at least as many lie at or below it. Unless the rank falls into
/// the overflow bucket, the estimate differs from `s` by less than one
/// bucket width. Where it does, `s` lies at or beyond the clipping range and
/// the estimate is the largest sample.
pub proof fn lemma_estimate_error_bound(
    config: EstimatorConfig,
    values: Seq<int>,
    p: int,
    s: int,
)
    requires
        config.valid(),
        values.len() > 0,
        non_negative(values),
        count_below(values, s) < rank_of(p, values.len() as int) <= count_below(values, s + 1),
    ensures
        ({
            let h = Histogram::empty(config).replay(values);
            let w = config.bucket_width as int;
            let b = rank_bucket(h.counts, rank_of(p, values.len() as int), 0);
            let e = h.estimate(p);
            &&& b < config.bucket_count ==> -w < e - s < w
            &&& b >= config.bucket_count ==> s >= config.bucket_count * w && e == h.high
        }),
{
    let h = Histogram::empty(config).replay(values);
    let w = config.bucket_width as int;
    let b = rank_bucket(h.counts, rank_of(p, values.len() as int), 0);
    lemma_estimate_within_bucket(config, values, p);
    lemma_empty(config);
    lemma_replay(Histogram::empty(config), values);
    if s < b * w {
        lemma_count_below_monotone(values, s + 1, b * w);
    }
    if b < config.bucket_count && s >= b * w + w {
        lemma_count_below_monotone(values, b * w + w, s);
    }
}

/// After any sequence of samples that the counters can carry, a record's
/// count has grown by the number of samples and its sum by the exact sum of
/// their durations, and its histogram is the one that the durations give.
pub proof fn lemma_record_replay(start: RecordState, samples: Seq<Sample>)
    requires
        start.wf(),
        start.count() + samples.len() <= u64::MAX,
    ensures
        start.replay(samples).wf(),
        start.replay(samples).count() == start.count() + samples.len(),
        start.replay(samples).sum == start.sum + duration_sum(samples),
        start.replay(samples).hist == start.hist.replay(durations(samples)),
    decreases samples.len(),
{
    if samples.len() > 0 {
        let front = samples.drop_last();
        let s = samples.last();
        lemma_record_replay(start, front);
        lemma_recorded(start.replay(front), s);
        assert(durations(samples).drop_last() =~= durations(front));
        assert(durations(samples).last() == s.duration as int);
    } else {
        assert(durations(samples) =~= Seq::<int>::empty());
    }
}

/// After any non-empty sequence of samples to a new record, the minimum and
/// the maximum it reports are those of the durations recorded.
pub proof fn lemma_record_extremes(config: EstimatorConfig, samples: Seq<Sample>)
    requires
        config.valid(),
        0 < samples.len() <= u64::MAX,
    ensures
        ({
            let state = RecordState::empty(config).replay(samples);
            &&& forall|i: int|
                0 <= i < samples.len() ==> state.hist.low <= (#[trigger] samples[i]).duration
                    <= state.hist.high
            &&& exists|i: int|
                0 <= i < samples.len() && (#[trigger] samples[i]).duration == state.hist.low
            &&& exists|i: int|
                0 <= i < samples.len() && (#[trigger] samples[i]).duration == state.hist.high
        }),
{
    let start = RecordState::empty(config);
    let values = durations(samples);
    lemma_empty(config);
    assert(0 * u64::MAX == 0);
    assert(0 * 0 == 0);
    lemma_record_replay(start, samples);
    lemma_replay_extremes(config, values);
    let h = start.replay(samples).hist;
    let i_low = choose|i: int| 0 <= i < values.len() && #[trigger] values[i] == h.low;
    let i_high = choose|i: int| 0 <= i < values.len() && #[trigger] values[i] == h.high;
    assert(samples[i_low].duration == h.low);
    assert(samples[i_high].duration == h.high);
    assert forall|i: int| 0 <= i < samples.len() implies h.low <= (#[trigger] samples[i]).duration
        <= h.high by {
        assert(values[i] == samples[i].duration);
    }
}

/// Merging two estimators gives what one estimator gives that has seen the
/// samples of the first and then those of the second.
pub proof fn lemma_merged_is_concatenation(config: EstimatorConfig, a: Seq<int>, b: Seq<int>)
    requires
        config.valid(),
        non_negative(a),
        non_negative(b),
    ensures
        Histogram::empty(config).replay(a).merged(Histogram::empty(config).replay(b))
            == Histogram::empty(config).replay(a + b),
    decreases b.len(),
{
    let e = Histogram::empty(config);
    let left = e.replay(a);
    lemma_empty(config);
    lemma_replay(e, a);
    lemma_prefix_sum_monotone(left.counts, 0, left.counts.len() as int);
    if b.len() == 0 {
        assert(a + b =~= a);
        assert(left.merged(e).counts =~= left.counts);
    } else {
        let front = b.drop_last();
        let v = b.last();
        lemma_merged_is_concatenation(config, a, front);
        assert((a + b).drop_last() =~= a + front);
        assert((a + b).last() == v);
        let right = e.replay(front);
        lemma_replay(e, front);
        lemma_prefix_sum_monotone(right.counts, 0, right.counts.len() as int);
        let both = left.merged(right);
        lemma_merged(left, right);
        lemma_observed(right, v);
        assert(both.bucket_of(v) == right.bucket_of(v));
        assert(left.merged(right.observed(v)).counts =~= both.observed(v).counts);
    }
}

} // verus!
