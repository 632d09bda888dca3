use vstd::prelude::*;
use crate::histogram::LatencyHistogram;

verus! {

/// Whole completed requests per second over a run of `elapsed_micros`
/// microseconds, saturating at `u64::MAX`. A run of zero duration yields
/// zero rather than dividing by zero.
pub open spec fn qps_spec(received: u64, elapsed_micros: u64) -> u64 {
    if elapsed_micros == 0 {
        0u64
    } else if received * 1_000_000 / (elapsed_micros as int) > u64::MAX {
        u64::MAX
    } else {
        (received * 1_000_000 / (elapsed_micros as int)) as u64
    }
}

/// Requests per second achieved by a run, in whole requests.
pub fn qps(received: u64, elapsed_micros: u64) -> (r: u64)
    ensures
        r == qps_spec(received, elapsed_micros),
        elapsed_micros == 0 ==> r == 0,
{
    if elapsed_micros == 0 {
        return 0;
    }
    let wide: u128 = (received as u128) * 1_000_000u128 / (elapsed_micros as u128);
    if wide > u64::MAX as u128 {
        u64::MAX
    } else {
        wide as u64
    }
}

/// Read-only snapshot derived once at run end: totals, wall-clock
/// duration, percentile estimates, exact max and throughput.
#[derive(Clone, Copy, Debug)]
pub struct RunStats {
    pub total_requests: u64,
    pub received: u64,
    pub elapsed_micros: u64,
    pub p50: u64,
    pub p99: u64,
    pub max: u64,
    pub qps: u64,
}

/// Derives the end-of-run summary from the final histogram, the received
/// count and the wall-clock duration.
pub fn summarize(
    hist: &LatencyHistogram,
    total_requests: u64,
    received: u64,
    elapsed_micros: u64,
) -> (s: RunStats)
    requires
        hist.wf(),
    ensures
        s.total_requests == total_requests,
        s.received == received,
        s.elapsed_micros == elapsed_micros,
        s.p50 == hist.quantile_spec(1, 2),
        s.p99 == hist.quantile_spec(99, 100),
        s.max == hist.max,
        s.qps == qps_spec(received, elapsed_micros),
{
    RunStats {
        total_requests,
        received,
        elapsed_micros,
        p50: hist.quantile(1, 2),
        p99: hist.quantile(99, 100),
        max: hist.max,
        qps: qps(received, elapsed_micros),
    }
}

} // verus!
