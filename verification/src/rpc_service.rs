//! Plain latency tests, without any check of what an endpoint serves.

use crate::error::RpcHandlerError;
use crate::types::LatencyRecord;
use vstd::prelude::*;

verus! {

/// Tests the latency of endpoints under one timeout.
#[derive(Debug, Clone, Copy, PartialEq, Eq, Structural)]
pub struct RpcTestingService {
    timeout_ms: u64,
}

/// What the test call to one endpoint came to.
#[derive(Debug, Clone, Copy, PartialEq, Eq, Structural)]
pub struct LatencyProbe {
    /// The call completed within the timeout, with a success status.
    pub responded: bool,
    /// How long the call took, in milliseconds.
    pub elapsed_ms: u64,
}

/// The record that a test call earns: its latency where it responded, a
/// timeout of `timeout_ms` otherwise.
pub open spec fn latency_result(timeout_ms: u64, probe: LatencyProbe, now_secs: u64) -> Result<
    LatencyRecord,
    RpcHandlerError,
> {
    if probe.responded {
        Ok(LatencyRecord { latency_ms: probe.elapsed_ms, last_tested: now_secs, failure_count: 0 })
    } else {
        Err(RpcHandlerError::Timeout { duration_ms: timeout_ms })
    }
}

impl RpcTestingService {
    /// The timeout of every test call, in milliseconds.
    pub closed spec fn timeout(&self) -> u64 {
        self.timeout_ms
    }

    /// A service whose test calls time out after `timeout_ms` milliseconds.
    pub fn new(timeout_ms: u64) -> (service: Self)
        ensures
            service.timeout() == timeout_ms,
    {
        RpcTestingService { timeout_ms }
    }

    /// The timeout of every test call, in milliseconds.
    pub fn timeout_ms(&self) -> (timeout_ms: u64)
        ensures
            timeout_ms == self.timeout(),
    {
        self.timeout_ms
    }

    /// Judges the test call to one endpoint, made at `now_secs` seconds
    /// since the Unix epoch.
    pub fn test_rpc_latency(&self, probe: LatencyProbe, now_secs: u64) -> (record: Result<
        LatencyRecord,
        RpcHandlerError,
    >)
        ensures
            record == latency_result(self.timeout(), probe, now_secs),
    {
        if probe.responded {
            Ok(
                LatencyRecord {
                    latency_ms: probe.elapsed_ms,
                    last_tested: now_secs,
                    failure_count: 0,
                },
            )
        } else {
            Err(RpcHandlerError::Timeout { duration_ms: self.timeout_ms })
        }
    }

    /// Judges the test calls to a set of endpoints: for each, its position
    /// and what its call earned.
    pub fn race_rpcs(&self, probes: &Vec<LatencyProbe>, now_secs: u64) -> (records: Vec<
        (usize, Result<LatencyRecord, RpcHandlerError>),
    >)
        ensures
            records.len() == probes.len(),
            forall|i: int|
                0 <= i < probes.len() ==> (#[trigger] records[i]).0 == i && records[i].1
                    == latency_result(self.timeout(), probes[i], now_secs),
    {
        let mut records: Vec<(usize, Result<LatencyRecord, RpcHandlerError>)> = Vec::new();
        let mut i: usize = 0;
        while i < probes.len()
            invariant
                i <= probes.len(),
                records.len() == i,
                forall|k: int|
                    0 <= k < i ==> (#[trigger] records[k]).0 == k && records[k].1
                        == latency_result(self.timeout(), probes[k], now_secs),
            decreases probes.len() - i,
        {
            records.push((i, self.test_rpc_latency(probes[i], now_secs)));
            i += 1;
        }
        records
    }
}

} // verus!
