use vstd::prelude::*;
use crate::error::StatsError;
use crate::estimator::{lemma_empty, EstimatorConfig};
use crate::record::{RecordSnapshot, RecordState, RouteRecord, Sample, StatusClass, StatusCounts};
use crate::rotation::RotationPolicy;

verus! {

/// What became of a sample handed to the registry. Ingestion never fails:
/// the two refusals are reports, and leave the registry as it was.
#[derive(Clone, Copy, Debug, PartialEq, Eq, Structural)]
pub enum Ingest {
    /// The sample was added to its route's record.
    Recorded,
    /// The route's record already holds `u64::MAX` samples.
    RecordFull,
    /// The route is new and the registry already tracks as many routes as it
    /// may: the sample was dropped rather than let the registry grow.
    RouteCardinalityExceeded,
}

/// Mathematical content of one registry entry.
pub struct RouteState {
    pub route: Seq<char>,
    pub state: RecordState,
}

/// Mathematical content of a registry.
pub struct RegistryState {
    pub config: EstimatorConfig,
    pub max_routes: int,
    pub policy: RotationPolicy,
    /// Time at which the current window began.
    pub window_start: u64,
    /// The routes in order of first observation, each with its live record.
    pub live: Seq<RouteState>,
    /// The records of the last completed window.
    pub completed: Seq<RouteState>,
}

/// The key under which a route is kept: the route itself, or `unknown` for
/// the empty route.
pub open spec fn normalized_route(route: Seq<char>) -> Seq<char> {
    if route.len() == 0 {
        "unknown"@
    } else {
        route
    }
}

/// The duration that is recorded for a measured one: negative measurements
/// count as zero.
pub open spec fn normalized_duration(duration: i64) -> u64 {
    if duration < 0 {
        0
    } else {
        duration as u64
    }
}

/// Index of the first entry at or after `k` whose route is `key`, or the
/// number of entries when there is none.
pub open spec fn position(entries: Seq<RouteState>, key: Seq<char>, k: int) -> int
    decreases entries.len() - k,
{
    if k >= entries.len() {
        entries.len() as int
    } else if entries[k].route == key {
        k
    } else {
        position(entries, key, k + 1)
    }
}

/// No route occurs twice.
pub open spec fn distinct_routes(entries: Seq<RouteState>) -> bool {
    forall|i: int, j: int|
        0 <= i < j < entries.len() ==> (#[trigger] entries[i]).route != (#[trigger] entries[j]).route
}

/// Every record of `entries` with its counters back at zero.
pub open spec fn cleared_all(entries: Seq<RouteState>) -> Seq<RouteState> {
    Seq::new(
        entries.len(),
        |i: int| RouteState { route: entries[i].route, state: entries[i].state.cleared() },
    )
}

/// `position` finds `key` where it stands, and reports the number of
/// entries exactly when `key` stands nowhere at or after `k`.
pub proof fn lemma_position(entries: Seq<RouteState>, key: Seq<char>, k: int)
    requires
        0 <= k <= entries.len(),
    ensures
        k <= position(entries, key, k) <= entries.len(),
        position(entries, key, k) < entries.len() ==> entries[position(entries, key, k)].route
            == key,
        forall|j: int| k <= j < position(entries, key, k) ==> (#[trigger] entries[j]).route != key,
    decreases entries.len() - k,
{
    if k < entries.len() && entries[k].route != key {
        lemma_position(entries, key, k + 1);
    }
}

impl RegistryState {
    /// Whether `key` has a record.
    pub open spec fn tracks(self, key: Seq<char>) -> bool {
        position(self.live, key, 0) < self.live.len()
    }

    /// The live record of `key`; the empty record when `key` has none.
    pub open spec fn state_of(self, key: Seq<char>) -> RecordState {
        if self.tracks(key) {
            self.live[position(self.live, key, 0)].state
        } else {
            RecordState::empty(self.config)
        }
    }

    /// What the registry answers to a sample for `key`.
    pub open spec fn outcome(self, key: Seq<char>) -> Ingest {
        if self.tracks(key) {
            if self.state_of(key).count() < u64::MAX {
                Ingest::Recorded
            } else {
                Ingest::RecordFull
            }
        } else if self.live.len() < self.max_routes {
            Ingest::Recorded
        } else {
            Ingest::RouteCardinalityExceeded
        }
    }

    /// The registry after a sample for `key`: the record of `key` takes the
    /// sample, a record being made first, behind all others, when `key` has
    /// none; nothing changes when the sample is refused.
    pub open spec fn ingested(self, key: Seq<char>, sample: Sample) -> RegistryState {
        let entry = RouteState { route: key, state: self.state_of(key).recorded(sample) };
        if self.outcome(key) != Ingest::Recorded {
            self
        } else if self.tracks(key) {
            RegistryState { live: self.live.update(position(self.live, key, 0), entry), ..self }
        } else {
            RegistryState { live: self.live.push(entry), ..self }
        }
    }

    /// The registry with every record back at zero; the routes stay.
    pub open spec fn cleared(self) -> RegistryState {
        RegistryState { live: cleared_all(self.live), ..self }
    }

    /// The registry with the record of `key`, if it has one, back at zero.
    pub open spec fn cleared_route(self, key: Seq<char>) -> RegistryState {
        if self.tracks(key) {
            let i = position(self.live, key, 0);
            RegistryState {
                live: self.live.update(
                    i,
                    RouteState { route: key, state: self.live[i].state.cleared() },
                ),
                ..self
            }
        } else {
            self
        }
    }

    /// The registry after a rotation at time `now`: the live records become
    /// the completed window, and every route starts again from zero.
    pub open spec fn rotated(self, now: u64) -> RegistryState {
        RegistryState {
            window_start: now,
            live: cleared_all(self.live),
            completed: self.live,
            ..self
        }
    }
}

/// `snaps` holds, in the order of `entries`, one snapshot for each entry: its
/// route and the statistics that its record gives for `quantiles`.
pub open spec fn snapshots_describe(
    snaps: Seq<RouteSnapshot>,
    entries: Seq<RouteState>,
    quantiles: Seq<u32>,
) -> bool {
    &&& snaps.len() == entries.len()
    &&& forall|i: int|
        0 <= i < entries.len() ==> (#[trigger] snaps[i]).route@ == entries[i].route
            && snaps[i].stats.describes(entries[i].state, quantiles)
}

/// A route with its live record.
pub struct RouteEntry {
    route: String,
    record: RouteRecord,
}

/// A route with a copy of its statistics.
#[derive(Debug)]
pub struct RouteSnapshot {
    pub route: String,
    pub stats: RecordSnapshot,
}

/// The views of a vector of entries.
pub closed spec fn entry_states(entries: Seq<RouteEntry>) -> Seq<RouteState> {
    Seq::new(entries.len(), |i: int| RouteState { route: entries[i].route@, state: entries[i].record@ })
}

/// Every record is well formed and has the shape `config`.
pub closed spec fn entries_wf(entries: Seq<RouteEntry>, config: EstimatorConfig) -> bool {
    forall|i: int|
        0 <= i < entries.len() ==> {
            &&& (#[trigger] entries[i]).record.wf()
            &&& entries[i].record@.hist.width == config.bucket_width
            &&& entries[i].record@.hist.buckets() == config.bucket_count
        }
}

/// All routes of a process with their running statistics.
pub struct Registry {
    config: EstimatorConfig,
    max_routes: usize,
    policy: RotationPolicy,
    window_start: u64,
    live: Vec<RouteEntry>,
    completed: Vec<RouteEntry>,
}

impl View for Registry {
    type V = RegistryState;

    closed spec fn view(&self) -> RegistryState {
        RegistryState {
            config: self.config,
            max_routes: self.max_routes as int,
            policy: self.policy,
            window_start: self.window_start,
            live: entry_states(self.live@),
            completed: entry_states(self.completed@),
        }
    }
}

impl Registry {
    /// The representation invariant.
    pub closed spec fn wf(&self) -> bool {
        &&& self.config.valid()
        &&& self.policy.valid()
        &&& self.max_routes > 0
        &&& self.live@.len() <= self.max_routes
        &&& entries_wf(self.live@, self.config)
        &&& entries_wf(self.completed@, self.config)
        &&& distinct_routes(self@.live)
    }

    /// A well-formed registry tracks no route twice, never more routes than
    /// it may, and holds well-formed records only.
    pub proof fn lemma_wf(&self)
        requires
            self.wf(),
        ensures
            self@.config.valid(),
            self@.policy.valid(),
            distinct_routes(self@.live),
            self@.live.len() <= self@.max_routes <= usize::MAX,
            forall|i: int| 0 <= i < self@.live.len() ==> (#[trigger] self@.live[i]).state.wf(),
            forall|i: int|
                0 <= i < self@.completed.len() ==> (#[trigger] self@.completed[i]).state.wf(),
    {
        assert forall|i: int| 0 <= i < self@.live.len() implies (#[trigger] self@.live[i]).state.wf() by {
            self.live@[i].record.lemma_wf();
        }
        assert forall|i: int| 0 <= i < self@.completed.len() implies (
        #[trigger] self@.completed[i]).state.wf() by {
            self.completed@[i].record.lemma_wf();
        }
    }

    /// An empty registry. Fails with `InvalidConfiguration` exactly when the
    /// estimator shape is not usable, `max_routes` is zero, or the policy
    /// asks for windows of no length.
    pub fn new(config: EstimatorConfig, max_routes: usize, policy: RotationPolicy) -> (res: Result<
        Registry,
        StatsError,
    >)
        ensures
            match res {
                Ok(r) => {
                    &&& config.valid() && max_routes > 0 && policy.valid()
                    &&& r.wf()
                    &&& r@ == (RegistryState {
                        config,
                        max_routes: max_routes as int,
                        policy,
                        window_start: 0,
                        live: Seq::empty(),
                        completed: Seq::empty(),
                    })
                },
                Err(e) => !(config.valid() && max_routes > 0 && policy.valid()) && e
                    == StatsError::InvalidConfiguration,
            },
    {
        if config.bucket_count == 0 || config.bucket_count == usize::MAX || config.bucket_width
            == 0 || max_routes == 0 || !policy.is_valid() {
            return Err(StatsError::InvalidConfiguration);
        }
        let r = Registry {
            config,
            max_routes,
            policy,
            window_start: 0,
            live: Vec::new(),
            completed: Vec::new(),
        };
        proof {
            assert(r@.live =~= Seq::empty());
            assert(r@.completed =~= Seq::empty());
        }
        Ok(r)
    }

    /// Number of distinct routes tracked.
    pub fn route_count(&self) -> (res: usize)
        requires
            self.wf(),
        ensures
            res == self@.live.len(),
    {
        self.live.len()
    }

    /// Index of the entry of `key`, or the number of entries.
    fn locate(&self, key: &String) -> (res: usize)
        requires
            self.wf(),
        ensures
            res == position(self@.live, key@, 0),
            res <= self.live@.len(),
    {
        let mut k: usize = 0;
        while k < self.live.len()
            invariant
                k <= self.live@.len(),
                position(self@.live, key@, 0) == position(self@.live, key@, k as int),
            decreases self.live@.len() - k,
        {
            if self.live[k].route == *key {
                return k;
            }
            k = k + 1;
        }
        k
    }

    /// Routes one sample to the record of its route, making the record on
    /// first observation. An empty route counts as `unknown`, a negative
    /// duration as zero.
    pub fn record(&mut self, route: &str, duration: i64, status: StatusClass) -> (res: Ingest)
        requires
            old(self).wf(),
        ensures
            final(self).wf(),
            res == old(self)@.outcome(normalized_route(route@)),
            final(self)@ == old(self)@.ingested(
                normalized_route(route@),
                Sample { duration: normalized_duration(duration), status },
            ),
    {
        let key: String = if route.is_empty() {
            "unknown".to_owned()
        } else {
            route.to_owned()
        };
        let sample = Sample { duration: if duration < 0 { 0 } else { duration as u64 }, status };
        let i: usize = self.locate(&key);
        proof {
            lemma_position(self@.live, key@, 0);
        }
        if i < self.live.len() {
            if self.live[i].record.count() == u64::MAX {
                return Ingest::RecordFull;
            }
            self.live[i].record.record(sample);
            proof {
                assert(self@.live =~= old(self)@.ingested(key@, sample).live);
                assert(self@.completed =~= old(self)@.completed);
            }
            Ingest::Recorded
        } else if self.live.len() < self.max_routes {
            match RouteRecord::new(self.config) {
                Ok(mut fresh) => {
                    fresh.record(sample);
                    proof {
                        lemma_empty(self.config);
                        fresh.lemma_wf();
                    }
                    self.live.push(RouteEntry { route: key, record: fresh });
                    proof {
                        assert(self@.live =~= old(self)@.ingested(key@, sample).live);
                        assert(self@.completed =~= old(self)@.completed);
                    }
                    Ingest::Recorded
                },
                Err(_) => {
                    assert(false);
                    Ingest::RouteCardinalityExceeded
                },
            }
        } else {
            Ingest::RouteCardinalityExceeded
        }
    }

    /// Copies of the statistics of `entries`, in their order.
    fn snapshots_of(entries: &Vec<RouteEntry>, quantiles: &Vec<u32>, Ghost(config): Ghost<
        EstimatorConfig,
    >) -> (res: Vec<RouteSnapshot>)
        requires
            entries_wf(entries@, config),
        ensures
            snapshots_describe(res@, entry_states(entries@), quantiles@),
    {
        let mut out: Vec<RouteSnapshot> = Vec::new();
        let mut i: usize = 0;
        while i < entries.len()
            invariant
                entries_wf(entries@, config),
                i <= entries@.len(),
                out@.len() == i,
                forall|j: int|
                    0 <= j < i ==> (#[trigger] out@[j]).route@ == entries@[j].route@
                        && out@[j].stats.describes(entries@[j].record@, quantiles@),
            decreases entries@.len() - i,
        {
            let stats = entries[i].record.snapshot(quantiles);
            out.push(RouteSnapshot { route: entries[i].route.clone(), stats });
            i = i + 1;
        }
        out
    }

    /// A copy of the statistics of every tracked route, in order of first
    /// observation. A route that was never observed has no entry.
    pub fn snapshot_all(&self, quantiles: &Vec<u32>) -> (res: Vec<RouteSnapshot>)
        requires
            self.wf(),
        ensures
            snapshots_describe(res@, self@.live, quantiles@),
    {
        Registry::snapshots_of(&self.live, quantiles, Ghost(self.config))
    }

    /// A copy of the statistics of the last completed window: of every route
    /// as it stood when the window was rotated out.
    pub fn completed_window(&self, quantiles: &Vec<u32>) -> (res: Vec<RouteSnapshot>)
        requires
            self.wf(),
        ensures
            snapshots_describe(res@, self@.completed, quantiles@),
    {
        Registry::snapshots_of(&self.completed, quantiles, Ghost(self.config))
    }

    /// A copy of the statistics of one route: of its record, or of the empty
    /// record when the route was never observed.
    pub fn get_stats(&self, route: &str, quantiles: &Vec<u32>) -> (snap: RecordSnapshot)
        requires
            self.wf(),
        ensures
            snap.describes(self@.state_of(normalized_route(route@)), quantiles@),
    {
        let key: String = if route.is_empty() {
            "unknown".to_owned()
        } else {
            route.to_owned()
        };
        let i: usize = self.locate(&key);
        if i < self.live.len() {
            self.live[i].record.snapshot(quantiles)
        } else {
            proof {
                lemma_empty(self.config);
            }
            RecordSnapshot {
                count: 0,
                sum: 0,
                mean: Err(StatsError::NoData),
                min: None,
                max: None,
                status: StatusCounts {
                    success: 0,
                    redirect: 0,
                    client_error: 0,
                    server_error: 0,
                    failure: 0,
                },
                quantiles: Err(StatsError::EmptyDistribution),
            }
        }
    }

    /// Returns the record of every tracked route to the empty state. The
    /// routes stay tracked.
    pub fn reset_all(&mut self)
        requires
            old(self).wf(),
        ensures
            final(self).wf(),
            final(self)@ == old(self)@.cleared(),
    {
        let n: usize = self.live.len();
        let mut i: usize = 0;
        while i < n
            invariant
                i <= n,
                n == self.live@.len(),
                n == old(self).live@.len(),
                self.config == old(self).config,
                self.max_routes == old(self).max_routes,
                self.policy == old(self).policy,
                self.window_start == old(self).window_start,
                self.completed == old(self).completed,
                entries_wf(self.live@, self.config),
                forall|j: int|
                    0 <= j < n ==> (#[trigger] self.live@[j]).route == old(self).live@[j].route,
                forall|j: int|
                    0 <= j < i ==> (#[trigger] self.live@[j]).record@ == old(
                        self,
                    ).live@[j].record@.cleared(),
                forall|j: int|
                    i <= j < n ==> (#[trigger] self.live@[j]).record@ == old(self).live@[j].record@,
            decreases n - i,
        {
            self.live[i].record.reset();
            i = i + 1;
        }
        proof {
            assert(self@.live =~= cleared_all(old(self)@.live));
        }
    }

    /// Returns the record of one route to the empty state, and says whether
    /// the route is tracked; nothing changes when it is not.
    pub fn reset_route(&mut self, route: &str) -> (res: bool)
        requires
            old(self).wf(),
        ensures
            final(self).wf(),
            res == old(self)@.tracks(normalized_route(route@)),
            final(self)@ == old(self)@.cleared_route(normalized_route(route@)),
    {
        let key: String = if route.is_empty() {
            "unknown".to_owned()
        } else {
            route.to_owned()
        };
        let i: usize = self.locate(&key);
        proof {
            lemma_position(self@.live, key@, 0);
        }
        if i < self.live.len() {
            self.live[i].record.reset();
            proof {
                assert(self@.live =~= old(self)@.cleared_route(key@).live);
                assert(self@.completed =~= old(self)@.completed);
            }
            true
        } else {
            false
        }
    }

    /// Ends the current window at time `now`: the live records are set aside
    /// whole as the completed window, replacing the one before, and every
    /// route starts again from an empty record. Each sample is thus in the
    /// live records or in the completed window, never in both.
    pub fn rotate(&mut self, now: u64)
        requires
            old(self).wf(),
        ensures
            final(self).wf(),
            final(self)@ == old(self)@.rotated(now),
    {
        let n: usize = self.live.len();
        let mut next: Vec<RouteEntry> = Vec::new();
        let mut i: usize = 0;
        while i < n
            invariant
                *self == *old(self),
                self.wf(),
                i <= n,
                n == self.live@.len(),
                next@.len() == i,
                entries_wf(next@, self.config),
                forall|j: int|
                    0 <= j < i ==> (#[trigger] next@[j]).route@ == self.live@[j].route@
                        && next@[j].record@ == self.live@[j].record@.cleared(),
            decreases n - i,
        {
            let record = self.live[i].record.fresh();
            next.push(RouteEntry { route: self.live[i].route.clone(), record });
            i = i + 1;
        }
        core::mem::swap(&mut self.live, &mut next);
        self.completed = next;
        self.window_start = now;
        proof {
            assert(self@.live =~= cleared_all(old(self)@.live));
        }
    }

    /// Rotates when the policy says that the current window is over at time
    /// `now`, and says whether it did.
    pub fn tick(&mut self, now: u64) -> (res: bool)
        requires
            old(self).wf(),
        ensures
            final(self).wf(),
            res == old(self)@.policy.due(old(self)@.window_start, now),
            final(self)@ == if res {
                old(self)@.rotated(now)
            } else {
                old(self)@
            },
    {
        if self.policy.is_due(self.window_start, now) {
            self.rotate(now);
            true
        } else {
            false
        }
    }

    /// Replaces the rotation policy and starts a new window at time `now`.
    /// Fails with `InvalidConfiguration`, changing nothing, exactly when the
    /// policy asks for windows of no length.
    pub fn configure_rotation(&mut self, policy: RotationPolicy, now: u64) -> (res: Result<
        (),
        StatsError,
    >)
        requires
            old(self).wf(),
        ensures
            final(self).wf(),
            match res {
                Ok(_) => policy.valid() && final(self)@ == (RegistryState {
                    policy,
                    window_start: now,
                    ..old(self)@
                }),
                Err(e) => !policy.valid() && e == StatsError::InvalidConfiguration && final(self)@
                    == old(self)@,
            },
    {
        if !policy.is_valid() {
            return Err(StatsError::InvalidConfiguration);
        }
        self.policy = policy;
        self.window_start = now;
        Ok(())
    }
}

} // verus!
