//! Providers: a plain one, and one that retries across a pool.

pub mod create_provider;
pub mod retry_proxy;

pub use create_provider::{create_provider, JsonRpcProvider};
pub use retry_proxy::{
    attempt_rpc, race_batch, wrap_with_retry, BatchRace, HttpOutcome, RaceStep, RetryAction,
    RetryOptions, RetryProvider, RetrySession,
};
