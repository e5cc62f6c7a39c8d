//! Internal events that the Moogsoft sink reports about its own work.
use vstd::prelude::*;

verus! {

/// A metric was encoded into a record of `byte_size` bytes; it counts towards the
/// processed bytes.
#[derive(Clone, Copy, Debug)]
pub struct MoogsoftMetricEncoded {
    pub byte_size: usize,
}

/// A log event could not be turned into a Moogsoft metric and was dropped.
#[derive(Clone, Copy, Debug)]
pub struct LogEventDiscarded;

/// A metric event could not be turned into a Moogsoft metric and was dropped.
#[derive(Clone, Copy, Debug)]
pub struct MetricDiscarded;

} // verus!
