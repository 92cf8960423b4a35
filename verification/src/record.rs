use vstd::prelude::*;
use crate::error::StatsError;
use vstd::arithmetic::div_mod::{lemma_fundamental_div_mod, lemma_mod_pos_bound};
use vstd::string::StringSliceAdditionalSpecFns;
use crate::estimator::{
    lemma_cleared,
    lemma_observed,
    lemma_prefix_sum_monotone,
    Estimator,
    EstimatorConfig,
    Histogram,
};

verus! {

/// Outcome class of a handled request.
#[derive(Clone, Copy, Debug, PartialEq, Eq, Structural)]
pub enum StatusClass {
    /// A 2xx response.
    Success,
    /// A 3xx response.
    Redirect,
    /// A 4xx response.
    ClientError,
    /// A 5xx response.
    ServerError,
    /// The handler failed before it produced a response.
    Failure,
}

/// The class that a label names: `2xx`, `3xx`, `4xx` and `5xx` name the four
/// response classes, and every other label counts as a failure.
pub open spec fn class_of_label(label: Seq<u8>) -> StatusClass {
    if label == seq![0x32u8, 0x78u8, 0x78u8] {
        StatusClass::Success
    } else if label == seq![0x33u8, 0x78u8, 0x78u8] {
        StatusClass::Redirect
    } else if label == seq![0x34u8, 0x78u8, 0x78u8] {
        StatusClass::ClientError
    } else if label == seq![0x35u8, 0x78u8, 0x78u8] {
        StatusClass::ServerError
    } else {
        StatusClass::Failure
    }
}

impl StatusClass {
    /// Reads a class from its label, given as text.
    pub fn from_label(label: &str) -> (res: StatusClass)
        ensures
            res == class_of_label(label.spec_bytes()),
    {
        let bytes = label.as_bytes();
        if bytes.len() != 3 || bytes[1] != 0x78 || bytes[2] != 0x78 {
            proof {
                assert(seq![0x32u8, 0x78u8, 0x78u8].len() == 3);
                assert(seq![0x32u8, 0x78u8, 0x78u8][1] == 0x78 && seq![0x32u8, 0x78u8, 0x78u8][2]
                    == 0x78);
                assert(seq![0x33u8, 0x78u8, 0x78u8].len() == 3);
                assert(seq![0x33u8, 0x78u8, 0x78u8][1] == 0x78 && seq![0x33u8, 0x78u8, 0x78u8][2]
                    == 0x78);
                assert(seq![0x34u8, 0x78u8, 0x78u8].len() == 3);
                assert(seq![0x34u8, 0x78u8, 0x78u8][1] == 0x78 && seq![0x34u8, 0x78u8, 0x78u8][2]
                    == 0x78);
                assert(seq![0x35u8, 0x78u8, 0x78u8].len() == 3);
                assert(seq![0x35u8, 0x78u8, 0x78u8][1] == 0x78 && seq![0x35u8, 0x78u8, 0x78u8][2]
                    == 0x78);
            }
            return StatusClass::Failure;
        }
        let first: u8 = bytes[0];
        proof {
            assert(seq![0x32u8, 0x78u8, 0x78u8][0] == 0x32);
            assert(seq![0x33u8, 0x78u8, 0x78u8][0] == 0x33);
            assert(seq![0x34u8, 0x78u8, 0x78u8][0] == 0x34);
            assert(seq![0x35u8, 0x78u8, 0x78u8][0] == 0x35);
            assert(bytes@ =~= seq![first, 0x78u8, 0x78u8]);
        }
        if first == 0x32 {
            StatusClass::Success
        } else if first == 0x33 {
            StatusClass::Redirect
        } else if first == 0x34 {
            StatusClass::ClientError
        } else if first == 0x35 {
            StatusClass::ServerError
        } else {
            StatusClass::Failure
        }
    }
}

/// Number of samples per outcome class.
#[derive(Clone, Copy, Debug, PartialEq, Eq, Structural)]
pub struct StatusCounts {
    pub success: u64,
    pub redirect: u64,
    pub client_error: u64,
    pub server_error: u64,
    pub failure: u64,
}

impl StatusCounts {
    pub open spec fn zero() -> StatusCounts {
        StatusCounts { success: 0, redirect: 0, client_error: 0, server_error: 0, failure: 0 }
    }

    /// Samples counted over all classes.
    pub open spec fn sum(self) -> int {
        self.success + self.redirect + self.client_error + self.server_error + self.failure
    }

    /// Samples counted for one class.
    pub open spec fn of(self, status: StatusClass) -> int {
        match status {
            StatusClass::Success => self.success as int,
            StatusClass::Redirect => self.redirect as int,
            StatusClass::ClientError => self.client_error as int,
            StatusClass::ServerError => self.server_error as int,
            StatusClass::Failure => self.failure as int,
        }
    }

    /// The counts after one more sample of class `status`.
    pub open spec fn bumped(self, status: StatusClass) -> StatusCounts {
        match status {
            StatusClass::Success => StatusCounts {
                success: (self.success + 1) as u64,
                ..self
            },
            StatusClass::Redirect => StatusCounts {
                redirect: (self.redirect + 1) as u64,
                ..self
            },
            StatusClass::ClientError => StatusCounts {
                client_error: (self.client_error + 1) as u64,
                ..self
            },
            StatusClass::ServerError => StatusCounts {
                server_error: (self.server_error + 1) as u64,
                ..self
            },
            StatusClass::Failure => StatusCounts {
                failure: (self.failure + 1) as u64,
                ..self
            },
        }
    }
}

/// One observed request: its duration in microseconds and its outcome.
#[derive(Clone, Copy, Debug, PartialEq, Eq, Structural)]
pub struct Sample {
    pub duration: u64,
    pub status: StatusClass,
}

/// Mathematical content of a per-route record.
pub struct RecordState {
    /// Exact sum of all durations.
    pub sum: int,
    pub status: StatusCounts,
    pub hist: Histogram,
}

impl RecordState {
    /// Number of samples recorded.
    pub open spec fn count(self) -> int {
        self.hist.total()
    }

    pub open spec fn wf(self) -> bool {
        &&& self.hist.wf()
        &&& self.count() <= u64::MAX
        &&& self.status.sum() == self.count()
        &&& 0 <= self.sum <= self.count() * u64::MAX
        &&& self.count() * self.hist.low <= self.sum <= self.count() * self.hist.high
    }

    pub open spec fn empty(config: EstimatorConfig) -> RecordState {
        RecordState { sum: 0, status: StatusCounts::zero(), hist: Histogram::empty(config) }
    }

    /// This record with every counter back at zero.
    pub open spec fn cleared(self) -> RecordState {
        RecordState {
            sum: 0,
            status: StatusCounts::zero(),
            hist: self.hist.cleared(),
        }
    }

    /// The record after one more sample.
    pub open spec fn recorded(self, sample: Sample) -> RecordState {
        RecordState {
            sum: self.sum + sample.duration,
            status: self.status.bumped(sample.status),
            hist: self.hist.observed(sample.duration as int),
        }
    }

    /// The record after every sample of `samples`, in order.
    pub open spec fn replay(self, samples: Seq<Sample>) -> RecordState
        decreases samples.len(),
    {
        if samples.len() == 0 {
            self
        } else {
            self.replay(samples.drop_last()).recorded(samples.last())
        }
    }

    /// Mean duration, rounded down.
    pub open spec fn mean(self) -> int
        recommends
            self.count() > 0,
    {
        self.sum / self.count()
    }
}

/// One more sample, on a record that can still count it, keeps the record
/// well formed and raises its count by exactly one.
pub proof fn lemma_recorded(state: RecordState, sample: Sample)
    requires
        state.wf(),
        state.count() < u64::MAX,
    ensures
        state.recorded(sample).wf(),
        state.recorded(sample).count() == state.count() + 1,
        state.recorded(sample).hist.same_shape(state.hist),
{
    let n = state.count();
    let v = sample.duration as int;
    let next = state.recorded(sample);
    lemma_observed(state.hist, v);
    lemma_prefix_sum_monotone(state.hist.counts, 0, state.hist.counts.len() as int);
    assert((n + 1) * u64::MAX == n * u64::MAX + u64::MAX) by (nonlinear_arith);
    if n == 0 {
        assert(0 * u64::MAX == 0);
        assert(1 * v == v);
    } else {
        let low = state.hist.low;
        let high = state.hist.high;
        let s = state.sum;
        assert((n + 1) * next.hist.low <= s + v) by (nonlinear_arith)
            requires
                n > 0,
                n * low <= s,
                next.hist.low <= low,
                next.hist.low <= v,
        ;
        assert(s + v <= (n + 1) * next.hist.high) by (nonlinear_arith)
            requires
                n > 0,
                s <= n * high,
                high <= next.hist.high,
                v <= next.hist.high,
        ;
    }
}

/// Clearing a record leaves a well-formed empty one of the same shape.
pub proof fn lemma_record_cleared(state: RecordState)
    requires
        state.hist.wf(),
    ensures
        state.cleared().wf(),
        state.cleared().count() == 0,
        state.cleared().hist.same_shape(state.hist),
{
    lemma_cleared(state.hist);
    assert(0 * u64::MAX == 0);
    assert(0 * 0 == 0);
}

/// The mean of a record that holds a sample lies between the smallest and
/// the largest duration recorded.
pub proof fn lemma_mean_between_extremes(state: RecordState)
    requires
        state.wf(),
        state.count() > 0,
    ensures
        state.hist.low <= state.mean() <= state.hist.high,
{
    let n = state.count();
    let s = state.sum;
    let q = s / n;
    let r = s % n;
    let low = state.hist.low;
    let high = state.hist.high;
    lemma_fundamental_div_mod(s, n);
    lemma_mod_pos_bound(s, n);
    assert(low <= q <= high) by (nonlinear_arith)
        requires
            n > 0,
            s == n * q + r,
            0 <= r < n,
            n * low <= s <= n * high,
    ;
}

/// Estimate of one quantile.
#[derive(Clone, Copy, Debug, PartialEq, Eq, Structural)]
pub struct QuantileEstimate {
    /// The quantile asked for, in hundredths of a percent.
    pub p: u32,
    /// The estimated duration in microseconds.
    pub value: u64,
}

/// Point-in-time copy of a record's statistics.
#[derive(Debug)]
pub struct RecordSnapshot {
    pub count: u64,
    pub sum: u128,
    /// Mean duration rounded down, or `NoData` for an empty record.
    pub mean: Result<u64, StatsError>,
    pub min: Option<u64>,
    pub max: Option<u64>,
    pub status: StatusCounts,
    /// One estimate per quantile asked for, in the order asked, or
    /// `EmptyDistribution` for an empty record.
    pub quantiles: Result<Vec<QuantileEstimate>, StatsError>,
}

impl RecordSnapshot {
    /// This snapshot is the one that `state` gives for `quantiles`.
    pub open spec fn describes(&self, state: RecordState, quantiles: Seq<u32>) -> bool {
        &&& self.count == state.count()
        &&& self.sum == state.sum
        &&& self.status == state.status
        &&& state.count() == 0 ==> {
            &&& self.mean == Err::<u64, StatsError>(StatsError::NoData)
            &&& self.min.is_none()
            &&& self.max.is_none()
            &&& self.quantiles matches Err(e) && e == StatsError::EmptyDistribution
        }
        &&& state.count() != 0 ==> {
            &&& self.mean == Ok::<u64, StatsError>(state.mean() as u64)
            &&& self.min == Some(state.hist.low as u64)
            &&& self.max == Some(state.hist.high as u64)
            &&& self.quantiles matches Ok(qs) && qs@.len() == quantiles.len() && forall|i: int|
                0 <= i < quantiles.len() ==> (#[trigger] qs@[i]).p == quantiles[i] && qs@[i].value
                    == state.hist.estimate(quantiles[i] as int)
        }
    }
}

/// Running statistics of one route.
pub struct RouteRecord {
    sum: u128,
    status: StatusCounts,
    estimator: Estimator,
}

impl View for RouteRecord {
    type V = RecordState;

    closed spec fn view(&self) -> RecordState {
        RecordState { sum: self.sum as int, status: self.status, hist: self.estimator@ }
    }
}

impl RouteRecord {
    /// The representation invariant.
    pub closed spec fn wf(&self) -> bool {
        self.estimator.wf() && self@.wf()
    }

    /// A well-formed record holds a well-formed state.
    pub proof fn lemma_wf(&self)
        requires
            self.wf(),
        ensures
            self@.wf(),
            0 <= self@.count(),
            self@.sum <= u128::MAX,
            self@.hist.high <= u64::MAX,
    {
        self.estimator.lemma_wf();
    }

    /// An empty record whose estimator has the given shape, or
    /// `InvalidConfiguration` when the shape is not usable.
    pub fn new(config: EstimatorConfig) -> (res: Result<RouteRecord, StatsError>)
        ensures
            match res {
                Ok(r) => config.valid() && r.wf() && r@ == RecordState::empty(config),
                Err(e) => !config.valid() && e == StatsError::InvalidConfiguration,
            },
    {
        match Estimator::new(config) {
            Ok(estimator) => {
                proof {
                    estimator.lemma_wf();
                    assert(0 * u64::MAX == 0);
                    assert(0 * 0 == 0);
                }
                Ok(
                RouteRecord {
                    sum: 0,
                    status: StatusCounts {
                        success: 0,
                        redirect: 0,
                        client_error: 0,
                        server_error: 0,
                        failure: 0,
                    },
                    estimator,
                },
                )
            },
            Err(e) => Err(e),
        }
    }

    /// Number of samples recorded.
    pub fn count(&self) -> (res: u64)
        requires
            self.wf(),
        ensures
            res == self@.count(),
    {
        self.estimator.total()
    }

    /// The shape of this record's estimator.
    pub fn config(&self) -> (res: EstimatorConfig)
        requires
            self.wf(),
        ensures
            res.valid(),
            res.bucket_width == self@.hist.width,
            res.bucket_count == self@.hist.buckets(),
    {
        self.estimator.config()
    }

    /// Takes in one sample: the count and the class counter go up by one,
    /// the duration is added to the sum and handed to the estimator. A full
    /// record (one that already holds `u64::MAX` samples) stays as it is and
    /// answers `false`.
    pub fn record(&mut self, sample: Sample) -> (accepted: bool)
        requires
            old(self).wf(),
        ensures
            final(self).wf(),
            accepted == (old(self)@.count() < u64::MAX),
            accepted ==> final(self)@ == old(self)@.recorded(sample),
            !accepted ==> final(self)@ == old(self)@,
    {
        if self.estimator.total() == u64::MAX {
            return false;
        }
        proof {
            self.lemma_wf();
            let n = self@.count();
            assert(n * u64::MAX + u64::MAX <= u64::MAX * u64::MAX) by (nonlinear_arith)
                requires
                    0 <= n < u64::MAX,
            ;
            lemma_recorded(self@, sample);
        }
        self.estimator.observe(sample.duration);
        self.sum = self.sum + sample.duration as u128;
        match sample.status {
            StatusClass::Success => {
                self.status.success = self.status.success + 1;
            },
            StatusClass::Redirect => {
                self.status.redirect = self.status.redirect + 1;
            },
            StatusClass::ClientError => {
                self.status.client_error = self.status.client_error + 1;
            },
            StatusClass::ServerError => {
                self.status.server_error = self.status.server_error + 1;
            },
            StatusClass::Failure => {
                self.status.failure = self.status.failure + 1;
            },
        }
        true
    }

    /// Mean duration rounded down; `NoData` exactly when the record is empty.
    pub fn mean(&self) -> (res: Result<u64, StatsError>)
        requires
            self.wf(),
        ensures
            match res {
                Ok(m) => self@.count() > 0 && m == self@.mean(),
                Err(e) => self@.count() == 0 && e == StatsError::NoData,
            },
    {
        let n: u64 = self.estimator.total();
        if n == 0 {
            return Err(StatsError::NoData);
        }
        proof {
            self.lemma_wf();
            let s = self@.sum;
            let c = self@.count();
            assert(0 <= s / c <= u64::MAX) by (nonlinear_arith)
                requires
                    0 < c,
                    0 <= s <= c * u64::MAX,
            ;
        }
        Ok((self.sum / n as u128) as u64)
    }

    /// Estimates quantile `p` (in hundredths of a percent);
    /// `EmptyDistribution` exactly when the record is empty.
    pub fn quantile(&self, p: u32) -> (res: Result<u64, StatsError>)
        requires
            self.wf(),
        ensures
            match res {
                Ok(v) => self@.count() > 0 && v == self@.hist.estimate(p as int),
                Err(e) => self@.count() == 0 && e == StatsError::EmptyDistribution,
            },
    {
        self.estimator.quantile(p)
    }

    /// Copies the statistics out, with one estimate per quantile asked for.
    pub fn snapshot(&self, quantiles: &Vec<u32>) -> (snap: RecordSnapshot)
        requires
            self.wf(),
        ensures
            snap.describes(self@, quantiles@),
    {
        let count: u64 = self.estimator.total();
        let mean = self.mean();
        let min = self.estimator.min();
        let max = self.estimator.max();
        if count == 0 {
            return RecordSnapshot {
                count,
                sum: self.sum,
                mean,
                min,
                max,
                status: self.status,
                quantiles: Err(StatsError::EmptyDistribution),
            };
        }
        let mut estimates: Vec<QuantileEstimate> = Vec::new();
        let mut i: usize = 0;
        while i < quantiles.len()
            invariant
                self.wf(),
                self@.count() > 0,
                i <= quantiles@.len(),
                estimates@.len() == i,
                forall|j: int|
                    0 <= j < i ==> (#[trigger] estimates@[j]).p == quantiles@[j] && estimates@[j].value
                        == self@.hist.estimate(quantiles@[j] as int),
            decreases quantiles@.len() - i,
        {
            let p: u32 = quantiles[i];
            match self.estimator.quantile(p) {
                Ok(value) => {
                    estimates.push(QuantileEstimate { p, value });
                },
                Err(_) => {
                    assert(false);
                },
            }
            i = i + 1;
        }
        RecordSnapshot {
            count,
            sum: self.sum,
            mean,
            min,
            max,
            status: self.status,
            quantiles: Ok(estimates),
        }
    }

    /// An empty record of the same shape.
    pub fn fresh(&self) -> (res: RouteRecord)
        requires
            self.wf(),
        ensures
            res.wf(),
            res@ == self@.cleared(),
            res@.count() == 0,
    {
        let estimator = self.estimator.fresh();
        proof {
            self.lemma_wf();
            lemma_record_cleared(self@);
        }
        RouteRecord {
            sum: 0,
            status: StatusCounts {
                success: 0,
                redirect: 0,
                client_error: 0,
                server_error: 0,
                failure: 0,
            },
            estimator,
        }
    }

    /// Returns every counter and the estimator to the empty state.
    pub fn reset(&mut self)
        requires
            old(self).wf(),
        ensures
            final(self).wf(),
            final(self)@ == old(self)@.cleared(),
            final(self)@.count() == 0,
    {
        self.estimator.reset();
        proof {
            old(self).lemma_wf();
            lemma_record_cleared(old(self)@);
        }
        self.sum = 0;
        self.status = StatusCounts {
            success: 0,
            redirect: 0,
            client_error: 0,
            server_error: 0,
            failure: 0,
        };
    }
}

} // verus!
