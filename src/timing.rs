//! The two latency figures reported for each query run.
use vstd::prelude::*;

verus! {

/// The latency of one query alone, and together with the graph load that
/// preceded it, in whole milliseconds.
#[derive(Clone, Copy, Debug, PartialEq, Eq, Structural)]
pub struct LatencyReport {
    pub query_ms: u128,
    pub total_ms: u128,
}

/// Combines a query's duration with the duration of the graph load.
pub fn latency_report(query_ms: u128, parse_ms: u128) -> (r: LatencyReport)
    requires
        query_ms + parse_ms <= u128::MAX,
    ensures
        r.query_ms == query_ms,
        r.total_ms == query_ms + parse_ms,
{
    LatencyReport { query_ms, total_ms: query_ms + parse_ms }
}

} // verus!
