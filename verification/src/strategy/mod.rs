//! How a handler picks its endpoint.

pub mod get_fastest;
pub mod get_first_healthy;

pub use get_fastest::get_fastest;
pub use get_first_healthy::{get_first_healthy, is_healthy, probe_passes, HealthScan};

use vstd::prelude::*;

verus! {

/// How a handler picks its endpoint.
#[derive(Debug, Clone, Copy, PartialEq, Eq, Structural)]
pub enum Strategy {
    /// Probe every endpoint and take the one that answers fastest.
    Fastest,
    /// Probe the endpoints one at a time, in random order, and take the
    /// first that passes.
    FirstHealthy,
}

} // verus!
