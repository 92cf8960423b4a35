//! Per-route latency statistics with bounded memory.
//!
//! A [`registry::Registry`] keeps one [`record::RouteRecord`] per route. A
//! record holds a sample count, an exact sum of durations, a counter per
//! outcome class and an [`estimator::Estimator`]: a histogram of a fixed
//! number of equal-width buckets, followed by one overflow bucket for
//! outliers, from which quantiles are read.
//!
//! Durations are whole microseconds and quantiles are given in hundredths of
//! a percent, so every statistic is exact integer arithmetic.
//!
//! Error bound of a quantile estimate: the estimate lies in the same bucket
//! as the sample of the rank asked for, and between the smallest and the
//! largest sample, so the two differ by less than one bucket width. A rank
//! that falls into the overflow bucket is answered with the largest sample.
//!
//! Every operation takes the value it changes by exclusive reference: a
//! caller that shares a registry between threads puts it behind a lock, and
//! each call then sees all earlier calls and none that come later.

pub mod error;
pub mod estimator;
pub mod laws;
pub mod record;
pub mod registry;
pub mod registry_laws;
pub mod rotation;
