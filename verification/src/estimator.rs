use vstd::prelude::*;
use crate::error::StatsError;

verus! {

/// Largest quantile argument: quantiles are given in hundredths of a percent.
pub const FULL_SCALE: u32 = 10_000;

/// Shape of a histogram: `bucket_count` regular buckets, each `bucket_width`
/// microseconds wide, followed by one overflow bucket.
#[derive(Clone, Copy, Debug, PartialEq, Eq, Structural)]
pub struct EstimatorConfig {
    pub bucket_count: usize,
    pub bucket_width: u64,
}

impl EstimatorConfig {
    /// A shape is usable when it has a bucket of positive width and the
    /// overflow bucket still fits behind the regular ones.
    pub open spec fn valid(self) -> bool {
        0 < self.bucket_count < usize::MAX && 0 < self.bucket_width
    }
}

/// Mathematical content of an estimator.
pub struct Histogram {
    /// Width of a regular bucket.
    pub width: int,
    /// Samples per bucket; the last entry is the overflow bucket.
    pub counts: Seq<int>,
    /// Smallest sample seen, 0 while empty.
    pub low: int,
    /// Largest sample seen, 0 while empty.
    pub high: int,
}

/// Sum of the first `k` entries of `counts`.
pub open spec fn prefix_sum(counts: Seq<int>, k: int) -> int
    decreases k,
{
    if k <= 0 {
        0
    } else {
        prefix_sum(counts, k - 1) + counts[k - 1]
    }
}

/// First bucket at or after `k` whose running total reaches rank `r`; the
/// last bucket when none does.
pub open spec fn rank_bucket(counts: Seq<int>, r: int, k: int) -> int
    decreases counts.len() - k,
{
    if k + 1 >= counts.len() || prefix_sum(counts, k + 1) >= r {
        k
    } else {
        rank_bucket(counts, r, k + 1)
    }
}

/// One-based rank of the sample that answers quantile `p` among `n` samples:
/// the ceiling of `p * n / FULL_SCALE`, kept within `1..=n`.
pub open spec fn rank_of(p: int, n: int) -> int {
    let r = (p * n + (FULL_SCALE - 1)) / (FULL_SCALE as int);
    if r < 1 {
        1
    } else if r > n {
        n
    } else {
        r
    }
}

pub open spec fn clamp(v: int, low: int, high: int) -> int {
    if v < low {
        low
    } else if v > high {
        high
    } else {
        v
    }
}

impl Histogram {
    pub open spec fn wf(self) -> bool {
        &&& self.width > 0
        &&& self.counts.len() >= 2
        &&& forall|i: int| 0 <= i < self.counts.len() ==> #[trigger] self.counts[i] >= 0
        &&& 0 <= self.low <= self.high
        &&& self.total() == 0 ==> self.low == 0 && self.high == 0
    }

    /// Number of regular buckets.
    pub open spec fn buckets(self) -> int {
        self.counts.len() - 1
    }

    /// Number of samples held.
    pub open spec fn total(self) -> int {
        prefix_sum(self.counts, self.counts.len() as int)
    }

    pub open spec fn empty(config: EstimatorConfig) -> Histogram {
        Histogram {
            width: config.bucket_width as int,
            counts: Seq::new((config.bucket_count + 1) as nat, |i: int| 0int),
            low: 0,
            high: 0,
        }
    }

    /// Bucket that receives value `v`: values at or beyond the clipping
    /// range `buckets * width` fall into the overflow bucket.
    pub open spec fn bucket_of(self, v: int) -> int {
        if v / self.width < self.buckets() {
            v / self.width
        } else {
            self.buckets()
        }
    }

    /// The histogram after one more sample `v`.
    pub open spec fn observed(self, v: int) -> Histogram {
        let i = self.bucket_of(v);
        Histogram {
            width: self.width,
            counts: self.counts.update(i, self.counts[i] + 1),
            low: if self.total() == 0 || v < self.low { v } else { self.low },
            high: if self.total() == 0 || v > self.high { v } else { self.high },
        }
    }

    /// The histogram after every sample of `samples`, in order.
    pub open spec fn replay(self, samples: Seq<int>) -> Histogram
        decreases samples.len(),
    {
        if samples.len() == 0 {
            self
        } else {
            self.replay(samples.drop_last()).observed(samples.last())
        }
    }

    /// Estimate of quantile `p` (in hundredths of a percent): the midpoint of
    /// the bucket that holds the sample of rank `rank_of(p, total)`, kept
    /// within the smallest and largest sample seen. The overflow bucket is
    /// represented by the largest sample.
    pub open spec fn estimate(self, p: int) -> int {
        let b = rank_bucket(self.counts, rank_of(p, self.total()), 0);
        let mid = if b >= self.buckets() {
            self.high
        } else {
            b * self.width + self.width / 2
        };
        clamp(mid, self.low, self.high)
    }

    /// The empty histogram of the same shape.
    pub open spec fn cleared(self) -> Histogram {
        Histogram {
            width: self.width,
            counts: Seq::new(self.counts.len(), |i: int| 0int),
            low: 0,
            high: 0,
        }
    }

    pub open spec fn same_shape(self, other: Histogram) -> bool {
        self.width == other.width && self.counts.len() == other.counts.len()
    }

    /// Bucket-wise sum of two histograms of the same shape.
    pub open spec fn merged(self, other: Histogram) -> Histogram {
        Histogram {
            width: self.width,
            counts: Seq::new(self.counts.len(), |i: int| self.counts[i] + other.counts[i]),
            low: if self.total() == 0 {
                other.low
            } else if other.total() == 0 || self.low <= other.low {
                self.low
            } else {
                other.low
            },
            high: if self.total() == 0 {
                other.high
            } else if other.total() == 0 || self.high >= other.high {
                self.high
            } else {
                other.high
            },
        }
    }
}

/// Changing one entry changes every prefix sum that covers it by the same
/// amount and leaves the others alone.
pub proof fn lemma_prefix_sum_update(counts: Seq<int>, i: int, c: int, k: int)
    requires
        0 <= i < counts.len(),
        0 <= k <= counts.len(),
    ensures
        prefix_sum(counts.update(i, c), k) == prefix_sum(counts, k) + if i < k {
            c - counts[i]
        } else {
            0
        },
    decreases k,
{
    if k > 0 {
        lemma_prefix_sum_update(counts, i, c, k - 1);
    }
}

/// Prefix sums of non-negative entries never decrease, and no entry exceeds
/// a prefix sum that covers it.
pub proof fn lemma_prefix_sum_monotone(counts: Seq<int>, j: int, k: int)
    requires
        0 <= j <= k <= counts.len(),
        forall|i: int| 0 <= i < counts.len() ==> #[trigger] counts[i] >= 0,
    ensures
        0 <= prefix_sum(counts, j) <= prefix_sum(counts, k),
        j < k ==> prefix_sum(counts, j) + counts[j] <= prefix_sum(counts, k),
    decreases k,
{
    if j < k {
        lemma_prefix_sum_monotone(counts, j, k - 1);
    } else if k > 0 {
        lemma_prefix_sum_monotone(counts, j - 1, k - 1);
    }
}

/// Prefix sums of a bucket-wise sum are the sums of the prefix sums.
pub proof fn lemma_prefix_sum_pointwise(a: Seq<int>, b: Seq<int>, s: Seq<int>, k: int)
    requires
        0 <= k <= s.len(),
        s.len() <= a.len(),
        s.len() <= b.len(),
        forall|i: int| 0 <= i < s.len() ==> #[trigger] s[i] == a[i] + b[i],
    ensures
        prefix_sum(s, k) == prefix_sum(a, k) + prefix_sum(b, k),
    decreases k,
{
    if k > 0 {
        lemma_prefix_sum_pointwise(a, b, s, k - 1);
    }
}

/// All-zero entries sum to zero.
pub proof fn lemma_prefix_sum_zero(counts: Seq<int>, k: int)
    requires
        0 <= k <= counts.len(),
        forall|i: int| 0 <= i < counts.len() ==> #[trigger] counts[i] == 0,
    ensures
        prefix_sum(counts, k) == 0,
    decreases k,
{
    if k > 0 {
        lemma_prefix_sum_zero(counts, k - 1);
    }
}

/// The empty histogram of a usable shape is well formed and holds nothing.
pub proof fn lemma_empty(config: EstimatorConfig)
    requires
        config.valid(),
    ensures
        Histogram::empty(config).wf(),
        Histogram::empty(config).total() == 0,
        Histogram::empty(config).buckets() == config.bucket_count,
{
    let h = Histogram::empty(config);
    lemma_prefix_sum_zero(h.counts, h.counts.len() as int);
}

/// Clearing a histogram leaves a well-formed one of the same shape that
/// holds nothing.
pub proof fn lemma_cleared(h: Histogram)
    requires
        h.wf(),
    ensures
        h.cleared().wf(),
        h.cleared().same_shape(h),
        h.cleared().total() == 0,
{
    let c = h.cleared();
    lemma_prefix_sum_zero(c.counts, c.counts.len() as int);
}

/// One more sample keeps a histogram well formed and its shape fixed, and
/// raises its sample count by exactly one.
pub proof fn lemma_observed(h: Histogram, v: int)
    requires
        h.wf(),
        v >= 0,
    ensures
        h.observed(v).wf(),
        h.observed(v).same_shape(h),
        h.observed(v).total() == h.total() + 1,
        0 <= h.bucket_of(v) < h.counts.len(),
{
    let i = h.bucket_of(v);
    assert(0 <= v / h.width) by (nonlinear_arith)
        requires
            v >= 0,
            h.width > 0,
    ;
    let n = h.counts.len() as int;
    lemma_prefix_sum_update(h.counts, i, h.counts[i] + 1, n);
    lemma_prefix_sum_monotone(h.counts, 0, n);
}

/// Merging keeps histograms well formed and their shape fixed, and adds
/// their sample counts.
pub proof fn lemma_merged(a: Histogram, b: Histogram)
    requires
        a.wf(),
        b.wf(),
        a.same_shape(b),
    ensures
        a.merged(b).wf(),
        a.merged(b).same_shape(a),
        a.merged(b).total() == a.total() + b.total(),
{
    let n = a.counts.len() as int;
    lemma_prefix_sum_pointwise(a.counts, b.counts, a.merged(b).counts, n);
    lemma_prefix_sum_monotone(a.counts, 0, n);
    lemma_prefix_sum_monotone(b.counts, 0, n);
}

/// A bounded-memory estimate of a latency distribution: a fixed number of
/// equal-width buckets plus one overflow bucket for outliers.
pub struct Estimator {
    width: u64,
    counts: Vec<u64>,
    total: u64,
    low: u64,
    high: u64,
}

impl View for Estimator {
    type V = Histogram;

    closed spec fn view(&self) -> Histogram {
        Histogram {
            width: self.width as int,
            counts: Seq::new(self.counts@.len(), |i: int| self.counts@[i] as int),
            low: self.low as int,
            high: self.high as int,
        }
    }
}

impl Estimator {
    /// The representation invariant.
    pub closed spec fn wf(&self) -> bool {
        &&& self@.wf()
        &&& self@.total() == self.total
        &&& self.counts@.len() <= usize::MAX
    }

    /// A well-formed estimator holds a well-formed histogram whose sample
    /// count fits the counter.
    pub proof fn lemma_wf(&self)
        requires
            self.wf(),
        ensures
            self@.wf(),
            0 <= self@.total() <= u64::MAX,
            0 <= self@.low <= self@.high <= u64::MAX,
            self@.width <= u64::MAX,
            self@.counts.len() <= usize::MAX,
    {
        lemma_prefix_sum_monotone(self@.counts, 0, self@.counts.len() as int);
    }

    /// An empty estimator of the given shape, or `InvalidConfiguration` when
    /// the shape is not usable.
    pub fn new(config: EstimatorConfig) -> (res: Result<Estimator, StatsError>)
        ensures
            match res {
                Ok(e) => config.valid() && e.wf() && e@ == Histogram::empty(config) && e@.total()
                    == 0,
                Err(err) => !config.valid() && err == StatsError::InvalidConfiguration,
            },
    {
        if config.bucket_count == 0 || config.bucket_count == usize::MAX || config.bucket_width
            == 0 {
            return Err(StatsError::InvalidConfiguration);
        }
        let mut counts: Vec<u64> = Vec::new();
        let slots: usize = config.bucket_count + 1;
        while counts.len() < slots
            invariant
                counts@.len() <= slots,
                forall|i: int| 0 <= i < counts@.len() ==> #[trigger] counts@[i] == 0,
            decreases slots - counts@.len(),
        {
            counts.push(0);
        }
        let e = Estimator { width: config.bucket_width, counts, total: 0, low: 0, high: 0 };
        proof {
            assert(e@.counts =~= Histogram::empty(config).counts);
            lemma_prefix_sum_zero(e@.counts, e@.counts.len() as int);
        }
        Ok(e)
    }

    /// The shape this estimator was made with.
    pub fn config(&self) -> (res: EstimatorConfig)
        requires
            self.wf(),
        ensures
            res.valid(),
            res.bucket_width == self@.width,
            res.bucket_count == self@.buckets(),
    {
        EstimatorConfig { bucket_count: self.counts.len() - 1, bucket_width: self.width }
    }

    /// Number of samples held.
    pub fn total(&self) -> (res: u64)
        requires
            self.wf(),
        ensures
            res == self@.total(),
    {
        self.total
    }

    /// Number of counters held: fixed at construction, whatever was observed.
    pub fn footprint(&self) -> (res: usize)
        requires
            self.wf(),
        ensures
            res == self@.counts.len(),
    {
        self.counts.len()
    }

    /// Smallest sample seen, or nothing while empty.
    pub fn min(&self) -> (res: Option<u64>)
        requires
            self.wf(),
        ensures
            res == if self@.total() == 0 { None } else { Some(self@.low as u64) },
    {
        if self.total == 0 {
            None
        } else {
            Some(self.low)
        }
    }

    /// Largest sample seen, or nothing while empty.
    pub fn max(&self) -> (res: Option<u64>)
        requires
            self.wf(),
        ensures
            res == if self@.total() == 0 { None } else { Some(self@.high as u64) },
    {
        if self.total == 0 {
            None
        } else {
            Some(self.high)
        }
    }

    /// Takes in one sample. A full estimator (one that already holds
    /// `u64::MAX` samples) stays as it is and answers `false`.
    pub fn observe(&mut self, value: u64) -> (accepted: bool)
        requires
            old(self).wf(),
        ensures
            final(self).wf(),
            accepted == (old(self)@.total() < u64::MAX),
            accepted ==> final(self)@ == old(self)@.observed(value as int),
            !accepted ==> final(self)@ == old(self)@,
    {
        if self.total == u64::MAX {
            return false;
        }
        let regular: usize = self.counts.len() - 1;
        let q: u64 = value / self.width;
        let i: usize = if q < regular as u64 { q as usize } else { regular };
        proof {
            assert(i as int == old(self)@.bucket_of(value as int));
            lemma_prefix_sum_monotone(old(self)@.counts, i as int, old(self)@.counts.len() as int);
            lemma_prefix_sum_update(
                old(self)@.counts,
                i as int,
                old(self)@.counts[i as int] + 1,
                old(self)@.counts.len() as int,
            );
        }
        let c: u64 = self.counts[i];
        self.counts.set(i, c + 1);
        if self.total == 0 || value < self.low {
            self.low = value;
        }
        if self.total == 0 || value > self.high {
            self.high = value;
        }
        self.total = self.total + 1;
        proof {
            assert(self@.counts =~= old(self)@.observed(value as int).counts);
        }
        true
    }

    /// An empty estimator of the same shape.
    pub fn fresh(&self) -> (res: Estimator)
        requires
            self.wf(),
        ensures
            res.wf(),
            res@ == self@.cleared(),
            res@.total() == 0,
    {
        let n: usize = self.counts.len();
        let mut counts: Vec<u64> = Vec::new();
        while counts.len() < n
            invariant
                counts@.len() <= n,
                forall|i: int| 0 <= i < counts@.len() ==> #[trigger] counts@[i] == 0,
            decreases n - counts@.len(),
        {
            counts.push(0);
        }
        let e = Estimator { width: self.width, counts, total: 0, low: 0, high: 0 };
        proof {
            assert(e@.counts =~= self@.cleared().counts);
            lemma_prefix_sum_zero(e@.counts, n as int);
        }
        e
    }

    /// Returns to the empty state, keeping the shape.
    pub fn reset(&mut self)
        requires
            old(self).wf(),
        ensures
            final(self).wf(),
            final(self)@.total() == 0,
            final(self)@ == old(self)@.cleared(),
    {
        let n: usize = self.counts.len();
        let mut i: usize = 0;
        while i < n
            invariant
                i <= n,
                self.counts@.len() == n,
                self.width == old(self).width,
                forall|j: int| 0 <= j < i ==> #[trigger] self.counts@[j] == 0,
            decreases n - i,
        {
            self.counts.set(i, 0);
            i = i + 1;
        }
        self.total = 0;
        self.low = 0;
        self.high = 0;
        proof {
            assert(self@.counts =~= old(self)@.cleared().counts);
            lemma_prefix_sum_zero(self@.counts, n as int);
        }
    }

    /// Estimates quantile `p`, given in hundredths of a percent (arguments
    /// above `FULL_SCALE` count as `FULL_SCALE`). Fails with
    /// `EmptyDistribution` exactly when no sample is held.
    pub fn quantile(&self, p: u32) -> (res: Result<u64, StatsError>)
        requires
            self.wf(),
        ensures
            match res {
                Ok(v) => self@.total() > 0 && v == self@.estimate(p as int),
                Err(e) => self@.total() == 0 && e == StatsError::EmptyDistribution,
            },
    {
        if self.total == 0 {
            return Err(StatsError::EmptyDistribution);
        }
        proof {
            self.lemma_wf();
            assert(0 <= (p as int) * (self.total as int) <= 0xffff_ffff * 0xffff_ffff_ffff_ffff)
                by (nonlinear_arith)
                requires
                    0 <= p as int <= 0xffff_ffff,
                    0 <= self.total as int <= 0xffff_ffff_ffff_ffff,
            ;
        }
        let scaled: u128 = (p as u128) * (self.total as u128) + (FULL_SCALE - 1) as u128;
        let raw: u128 = scaled / FULL_SCALE as u128;
        let r: u64 = if raw < 1 {
            1
        } else if raw > self.total as u128 {
            self.total
        } else {
            raw as u64
        };
        assert(r as int == rank_of(p as int, self@.total()));
        let last: usize = self.counts.len() - 1;
        let mut k: usize = 0;
        let mut seen: u64 = self.counts[0];
        assert(seen == prefix_sum(self@.counts, 1)) by {
            assert(prefix_sum(self@.counts, 0) == 0);
        }
        while k < last && seen < r
            invariant
                self.wf(),
                last == self@.counts.len() - 1,
                k <= last,
                seen == prefix_sum(self@.counts, k + 1),
                rank_bucket(self@.counts, r as int, 0) == rank_bucket(
                    self@.counts,
                    r as int,
                    k as int,
                ),
            decreases last - k,
        {
            k = k + 1;
            proof {
                self.lemma_wf();
                lemma_prefix_sum_monotone(self@.counts, k as int + 1, self@.counts.len() as int);
            }
            seen = seen + self.counts[k];
        }
        assert(rank_bucket(self@.counts, r as int, 0) == k);
        if k >= last {
            return Ok(self.high);
        }
        proof {
            assert(0 <= (k as int) * (self.width as int) <= 0xffff_ffff_ffff_ffff
                * 0xffff_ffff_ffff_ffff) by (nonlinear_arith)
                requires
                    0 <= k as int <= 0xffff_ffff_ffff_ffff,
                    0 <= self.width as int <= 0xffff_ffff_ffff_ffff,
            ;
        }
        let mid: u128 = (k as u128) * (self.width as u128) + (self.width / 2) as u128;
        if mid < self.low as u128 {
            Ok(self.low)
        } else if mid > self.high as u128 {
            Ok(self.high)
        } else {
            Ok(mid as u64)
        }
    }

    /// Adds the samples of `other` to this estimator. Fails, leaving this
    /// estimator as it was, with `InvalidConfiguration` when the shapes
    /// differ, and otherwise with `CountOverflow` when the two together hold
    /// more than `u64::MAX` samples.
    pub fn merge(&mut self, other: &Estimator) -> (res: Result<(), StatsError>)
        requires
            old(self).wf(),
            other.wf(),
        ensures
            final(self).wf(),
            match res {
                Ok(_) => {
                    &&& old(self)@.same_shape(other@)
                    &&& old(self)@.total() + other@.total() <= u64::MAX
                    &&& final(self)@ == old(self)@.merged(other@)
                },
                Err(e) => {
                    &&& final(self)@ == old(self)@
                    &&& e == if !old(self)@.same_shape(other@) {
                        StatsError::InvalidConfiguration
                    } else {
                        StatsError::CountOverflow
                    }
                    &&& old(self)@.same_shape(other@) ==> old(self)@.total() + other@.total()
                        > u64::MAX
                },
            },
    {
        if self.width != other.width || self.counts.len() != other.counts.len() {
            return Err(StatsError::InvalidConfiguration);
        }
        if other.total > u64::MAX - self.total {
            return Err(StatsError::CountOverflow);
        }
        let n: usize = self.counts.len();
        let mut sums: Vec<u64> = Vec::new();
        let mut i: usize = 0;
        while i < n
            invariant
                *self == *old(self),
                self.wf(),
                other.wf(),
                self.total + other.total <= u64::MAX,
                n == self.counts@.len(),
                n == other.counts@.len(),
                i <= n,
                sums@.len() == i,
                forall|j: int|
                    0 <= j < i ==> #[trigger] sums@[j] == self.counts@[j] + other.counts@[j],
            decreases n - i,
        {
            proof {
                self.lemma_wf();
                other.lemma_wf();
                lemma_prefix_sum_monotone(self@.counts, i as int, n as int);
                lemma_prefix_sum_monotone(other@.counts, i as int, n as int);
            }
            sums.push(self.counts[i] + other.counts[i]);
            i = i + 1;
        }
        if self.total == 0 {
            self.low = other.low;
            self.high = other.high;
        } else if other.total != 0 {
            if other.low < self.low {
                self.low = other.low;
            }
            if other.high > self.high {
                self.high = other.high;
            }
        }
        self.counts = sums;
        self.total = self.total + other.total;
        proof {
            assert(self@.counts =~= old(self)@.merged(other@).counts);
            lemma_prefix_sum_pointwise(old(self)@.counts, other@.counts, self@.counts, n as int);
        }
        Ok(())
    }
}

} // verus!
