//! The fastest endpoint of a probed set.

use crate::performance::measure::{
    is_check_of, is_latency_map_of, is_majority_block, measure_rpcs, LatencyMap, ProbeOutcome,
    RpcCheckResult,
};
use crate::performance::pick_fastest::{is_fastest, pick_fastest};
use vstd::prelude::*;

verus! {

/// Reads the probes of a set of endpoints and names the fastest among those
/// that passed, together with the latency of each that passed.
pub fn get_fastest(outcomes: &Vec<ProbeOutcome>) -> (found: (Option<String>, LatencyMap))
    ensures
        exists|checks: Seq<RpcCheckResult>, majority: Option<Seq<char>>|
            {
                &&& checks.len() == outcomes.len()
                &&& forall|i: int|
                    0 <= i < outcomes.len() ==> is_check_of(#[trigger] checks[i], outcomes[i])
                &&& #[trigger] is_majority_block(checks, majority)
                &&& is_latency_map_of(found.1, checks, majority)
            },
        match found.0 {
            Some(url) => exists|i: int| #[trigger]
                is_fastest(found.1.keys(), found.1.values(), i) && found.1.keys()[i] == url@,
            None => found.1.keys().len() == 0,
        },
{
    let (latencies, checks) = measure_rpcs(outcomes);
    let fastest = pick_fastest(&latencies);
    proof {
        let majority = choose|majority: Option<Seq<char>>|
            #![trigger is_majority_block(checks@, majority)]
            is_majority_block(checks@, majority) && is_latency_map_of(
                latencies,
                checks@,
                majority,
            );
        assert(is_majority_block(checks@, majority));
        if fastest.is_some() {
            let i = choose|i: int| #[trigger]
                is_fastest(latencies.keys(), latencies.values(), i) && latencies.keys()[i] == fastest->0@;
            assert(is_fastest(latencies.keys(), latencies.values(), i));
        }
    }
    (fastest, latencies)
}

} // verus!
