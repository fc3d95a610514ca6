//! The failures a caller can be handed.

use crate::types::NetworkId;
use vstd::prelude::*;

verus! {

/// Why an operation gave up. Failures of single endpoints never reach the
/// caller as such; only the exhaustion of every option does.
#[derive(Debug, PartialEq, Eq)]
pub enum RpcHandlerError {
    /// The candidate pool for the network is empty.
    NoAvailableRpcs { network_id: NetworkId },
    /// The endpoint with this URL answered with a non-success status.
    JsonRpc(String),
    /// A bounded wait elapsed.
    Timeout { duration_ms: u64 },
    /// Every retry pass was exhausted without a success.
    AllEndpointsFailed,
    /// The providers did not agree; `most_common` names the leading answer
    /// or says why there is none.
    ConsensusFailure { most_common: String },
    /// The agreed value could not be decoded into the type asked for.
    SerializationError(String),
    /// The transport failed; the text describes how.
    Network(String),
    /// The transport timed out; the text describes the wait.
    TimeoutError(String),
    /// The catalog has no entry for the network.
    ChainInfoNotFound { network_id: NetworkId },
}

} // verus!
