use vstd::prelude::*;

verus! {

/// Why a query or a configuration was refused.
#[derive(Clone, Copy, Debug, PartialEq, Eq, Structural)]
pub enum StatsError {
    /// A quantile was asked of a distribution that holds no sample.
    EmptyDistribution,
    /// A mean was asked of a record that holds no sample.
    NoData,
    /// A bucket count, bucket width or window length of zero, or two
    /// estimators of different shape.
    InvalidConfiguration,
    /// Two estimators together hold more samples than a counter can carry.
    CountOverflow,
}

} // verus!
