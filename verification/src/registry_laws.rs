//! What holds of a registry across calls.

use vstd::prelude::*;
use crate::error::StatsError;
use crate::estimator::{lemma_cleared, lemma_empty};
use crate::record::{RecordSnapshot, Sample};
use crate::registry::{cleared_all, distinct_routes, position, Ingest, RegistryState, RouteState};

verus! {

/// Two sequences of entries hold the same routes in the same places.
pub open spec fn same_routes(a: Seq<RouteState>, b: Seq<RouteState>) -> bool {
    a.len() == b.len() && forall|i: int| 0 <= i < a.len() ==> (#[trigger] a[i]).route == b[i].route
}

/// Every record of `entries` holds a well-formed histogram.
pub open spec fn histograms_wf(entries: Seq<RouteState>) -> bool {
    forall|i: int| 0 <= i < entries.len() ==> (#[trigger] entries[i]).state.hist.wf()
}

/// Where the routes are the same, every route is found at the same place.
pub proof fn lemma_position_same_routes(
    a: Seq<RouteState>,
    b: Seq<RouteState>,
    key: Seq<char>,
    k: int,
)
    requires
        same_routes(a, b),
        0 <= k <= a.len(),
    ensures
        position(a, key, k) == position(b, key, k),
    decreases a.len() - k,
{
    if k < a.len() {
        assert(a[k].route == b[k].route);
        if a[k].route != key {
            lemma_position_same_routes(a, b, key, k + 1);
        }
    }
}

/// A new last entry is found exactly by the routes that were not found
/// before and are its own.
pub proof fn lemma_position_push(
    entries: Seq<RouteState>,
    entry: RouteState,
    key: Seq<char>,
    k: int,
)
    requires
        0 <= k <= entries.len(),
    ensures
        position(entries.push(entry), key, k) == if position(entries, key, k) < entries.len()
            || entry.route == key {
            position(entries, key, k)
        } else {
            entries.len() as int + 1
        },
    decreases entries.len() - k,
{
    let longer = entries.push(entry);
    if k < entries.len() {
        assert(longer[k] == entries[k]);
        if entries[k].route != key {
            lemma_position_push(entries, entry, key, k + 1);
        }
    } else {
        assert(longer[k] == entry);
        assert(position(longer, key, k + 1) == longer.len());
    }
}

/// A sample reaches the record of its own route and no other: where it is
/// accepted, the record of its route is the old one with the sample
/// recorded; every other route keeps its record, and a route that was not
/// tracked and is not the sample's stays untracked. No route comes to stand
/// twice.
pub proof fn lemma_ingested(state: RegistryState, key: Seq<char>, sample: Sample, other: Seq<char>)
    requires
        distinct_routes(state.live),
    ensures
        distinct_routes(state.ingested(key, sample).live),
        state.outcome(key) == Ingest::Recorded ==> state.ingested(key, sample).tracks(key)
            && state.ingested(key, sample).state_of(key) == state.state_of(key).recorded(sample),
        state.outcome(key) != Ingest::Recorded ==> state.ingested(key, sample) == state,
        other != key ==> state.ingested(key, sample).tracks(other) == state.tracks(other)
            && state.ingested(key, sample).state_of(other) == state.state_of(other),
        state.ingested(key, sample).live.len() == state.live.len() + if state.outcome(key)
            == Ingest::Recorded && !state.tracks(key) {
            1int
        } else {
            0int
        },
{
    let after = state.ingested(key, sample);
    let i = position(state.live, key, 0);
    let entry = RouteState { route: key, state: state.state_of(key).recorded(sample) };
    crate::registry::lemma_position(state.live, key, 0);
    crate::registry::lemma_position(state.live, other, 0);
    if state.outcome(key) == Ingest::Recorded {
        if state.tracks(key) {
            assert(same_routes(state.live, after.live));
            lemma_position_same_routes(state.live, after.live, key, 0);
            lemma_position_same_routes(state.live, after.live, other, 0);
            assert forall|a: int, b: int| 0 <= a < b < after.live.len() implies (
            #[trigger] after.live[a]).route != (#[trigger] after.live[b]).route by {
                assert(after.live[a].route == state.live[a].route);
                assert(after.live[b].route == state.live[b].route);
            }
        } else {
            lemma_position_push(state.live, entry, key, 0);
            lemma_position_push(state.live, entry, other, 0);
            assert(after.live[state.live.len() as int] == entry);
            if other != key && state.tracks(other) {
                assert(after.live[position(state.live, other, 0)] == state.live[position(
                    state.live,
                    other,
                    0,
                )]);
            }
            assert forall|a: int, b: int| 0 <= a < b < after.live.len() implies (
            #[trigger] after.live[a]).route != (#[trigger] after.live[b]).route by {
                assert(after.live[a] == state.live[a]);
                if b < state.live.len() {
                    assert(after.live[b] == state.live[b]);
                }
            }
        }
    }
}

/// After a reset of all routes, the statistics of any route, tracked or not,
/// are those of the empty state: count and sum are zero, the mean answers
/// `NoData` and the quantiles answer `EmptyDistribution`. The tracked routes
/// are the same as before.
pub proof fn lemma_reset_all_gives_empty_stats(
    state: RegistryState,
    key: Seq<char>,
    quantiles: Seq<u32>,
    snap: RecordSnapshot,
)
    requires
        state.config.valid(),
        histograms_wf(state.live),
        snap.describes(state.cleared().state_of(key), quantiles),
    ensures
        state.cleared().tracks(key) == state.tracks(key),
        state.cleared().state_of(key).count() == 0,
        state.cleared().state_of(key).sum == 0,
        snap.count == 0,
        snap.sum == 0,
        snap.mean == Err::<u64, StatsError>(StatsError::NoData),
        snap.quantiles matches Err(e) && e == StatsError::EmptyDistribution,
{
    let after = state.cleared();
    lemma_empty(state.config);
    lemma_position_same_routes(state.live, after.live, key, 0);
    crate::registry::lemma_position(state.live, key, 0);
    if state.tracks(key) {
        let i = position(state.live, key, 0);
        lemma_cleared(state.live[i].state.hist);
        assert(after.live[i].state == state.live[i].state.cleared());
    }
}

/// A rotation counts no sample twice and loses none: the completed window
/// is exactly what was live, and every route starts the new window empty.
pub proof fn lemma_rotation_moves_each_sample_once(state: RegistryState, now: u64, key: Seq<char>)
    requires
        state.config.valid(),
        histograms_wf(state.live),
    ensures
        state.rotated(now).completed == state.live,
        state.rotated(now).tracks(key) == state.tracks(key),
        state.rotated(now).state_of(key).count() == 0,
        state.rotated(now).state_of(key).sum == 0,
{
    let after = state.rotated(now);
    lemma_empty(state.config);
    lemma_position_same_routes(state.live, after.live, key, 0);
    crate::registry::lemma_position(state.live, key, 0);
    if state.tracks(key) {
        let i = position(state.live, key, 0);
        lemma_cleared(state.live[i].state.hist);
        assert(after.live[i].state == state.live[i].state.cleared());
    }
}

} // verus!
