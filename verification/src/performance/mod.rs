//! Probing endpoints and reading the probes.

pub mod measure;
pub mod pick_fastest;

pub use measure::{
    check_rpc, is_permit2_bytecode_valid, measure_rpcs, probe_reply, LatencyMap, ProbeOutcome,
    ProbeReply, RpcCheckResult,
};
pub use pick_fastest::pick_fastest;
