//! A resilient client core for JSON-RPC blockchain endpoints.
//!
//! Given a pool of candidate provider URLs for a network, the crate decides
//! which endpoint to use, how to batch and retry requests across the pool,
//! and how to settle disagreements between providers by quorum. Everything
//! here is pure decision logic over plain values: the caller performs the
//! network calls, reads the clock and feeds the outcomes back in.

pub mod calls;
pub mod chainlist;
pub mod config;
pub mod cooldown;
pub mod error;
pub mod handler;
pub mod json;
pub mod jsonrpc;
pub mod performance;
pub mod provider;
pub mod ranking;
pub mod rpc;
pub mod rpc_service;
pub mod shuffle;
pub mod strategy;
pub mod string_map;
pub mod text;
pub mod types;

pub use calls::RpcCalls;
pub use config::{resolve_config, NormalizedConfig};
pub use error::RpcHandlerError;
pub use handler::RpcHandler;
pub use json::{JsonMember, JsonValue};
pub use jsonrpc::{JsonRpcError, JsonRpcRequest, JsonRpcResponse};
pub use strategy::Strategy;
pub use types::{
    HandlerConfig, HandlerSettings, LatencyRecord, LogLevel, NetworkId, NetworkName, ProxySettings,
    Rpc, Tracking, WipeChainData,
};
