//! The normalized configuration of a handler.

use crate::types::{HandlerConfig, HandlerSettings, LogLevel, NetworkId, Rpc, Tracking};
use vstd::prelude::*;
use vstd::string::*;

verus! {

/// Everything a handler needs to know, with every default filled in.
#[derive(Debug)]
pub struct NormalizedConfig {
    /// The network the handler serves.
    pub network_id: NetworkId,
    /// How much tracking by providers the caller accepts.
    pub tracking: Tracking,
    /// The caller's own endpoints, such as a local node.
    pub injected_rpcs: Vec<Rpc>,
    /// How failed calls are retried.
    pub retry: RetryConfig,
    /// Timeouts and logging.
    pub settings: SettingsConfig,
}

/// How failed calls are retried.
#[derive(Debug, Clone, Copy, PartialEq, Eq, Structural)]
pub struct RetryConfig {
    /// The number of passes over the endpoints.
    pub retry_count: u32,
    /// The pause between two attempts, in milliseconds.
    pub retry_delay_ms: u64,
}

/// Timeouts and logging.
#[derive(Debug)]
pub struct SettingsConfig {
    /// The timeout of a latency probe, in milliseconds.
    pub rpc_timeout_ms: u64,
    /// The timeout of a single call, in milliseconds.
    pub rpc_call_timeout_ms: u64,
    /// Whether latencies are kept in a browser's local storage; never, here.
    pub browser_local_storage: bool,
    /// The name of the log level.
    pub log_level: String,
    /// Whether the catalog is pruned to the configured network on start.
    pub prune_unused_data: bool,
}

/// The passes made where the caller set no proxy settings.
pub const DEFAULT_RETRY_COUNT: u32 = 3;

/// The pause between attempts where the caller set no proxy settings.
pub const DEFAULT_RETRY_DELAY_MS: u64 = 100;

/// The timeout of a call where the caller set no proxy settings.
pub const DEFAULT_CALL_TIMEOUT_MS: u64 = 10_000;

/// The name of a log level.
pub open spec fn level_text(level: LogLevel) -> Seq<char> {
    match level {
        LogLevel::Error => "error"@,
        LogLevel::Warn => "warn"@,
        LogLevel::Info => "info"@,
        LogLevel::Debug => "debug"@,
        LogLevel::Trace => "trace"@,
    }
}

/// The name of a log level.
pub fn level_name(level: LogLevel) -> (name: String)
    ensures
        name@ == level_text(level),
{
    match level {
        LogLevel::Error => "error".to_owned(),
        LogLevel::Warn => "warn".to_owned(),
        LogLevel::Info => "info".to_owned(),
        LogLevel::Debug => "debug".to_owned(),
        LogLevel::Trace => "trace".to_owned(),
    }
}

/// `normalized` is `config` with every default filled in. Settings left
/// out altogether count as the default settings; proxy settings left out
/// mean 3 passes, a pause of 100 ms and a call timeout of 10 s.
pub open spec fn is_normal_form_of(normalized: NormalizedConfig, config: HandlerConfig) -> bool {
    &&& normalized.network_id == config.network_id
    &&& !normalized.settings.browser_local_storage
    &&& !normalized.settings.prune_unused_data
    &&& match config.settings {
        Some(settings) => {
            &&& normalized.tracking == settings.tracking
            &&& normalized.injected_rpcs@ == settings.network_rpcs@
            &&& normalized.settings.rpc_timeout_ms == settings.rpc_probe_timeout_ms
            &&& normalized.settings.log_level@ == level_text(settings.log_level)
            &&& match settings.proxy_settings {
                Some(proxy) => {
                    &&& normalized.retry.retry_count == proxy.retry_count
                    &&& normalized.retry.retry_delay_ms == proxy.retry_delay_ms
                    &&& normalized.settings.rpc_call_timeout_ms == proxy.rpc_call_timeout_ms
                },
                None => {
                    &&& normalized.retry.retry_count == DEFAULT_RETRY_COUNT
                    &&& normalized.retry.retry_delay_ms == DEFAULT_RETRY_DELAY_MS
                    &&& normalized.settings.rpc_call_timeout_ms == DEFAULT_CALL_TIMEOUT_MS
                },
            }
        },
        None => {
            &&& normalized.tracking == Tracking::Limited
            &&& normalized.injected_rpcs@.len() == 0
            &&& normalized.settings.rpc_timeout_ms == 3000
            &&& normalized.settings.log_level@ == level_text(LogLevel::Error)
            &&& normalized.retry.retry_count == DEFAULT_RETRY_COUNT
            &&& normalized.retry.retry_delay_ms == DEFAULT_RETRY_DELAY_MS
            &&& normalized.settings.rpc_call_timeout_ms == DEFAULT_CALL_TIMEOUT_MS
        },
    }
}

/// Fills in every default, see [`is_normal_form_of`].
pub fn resolve_config(config: HandlerConfig) -> (normalized: NormalizedConfig)
    ensures
        is_normal_form_of(normalized, config),
{
    let network_id = config.network_id;
    let settings = match config.settings {
        Some(settings) => settings,
        None => HandlerSettings::default(),
    };
    let (retry_count, retry_delay_ms, rpc_call_timeout_ms): (u32, u64, u64) =
        match settings.proxy_settings {
        Some(proxy) => (proxy.retry_count, proxy.retry_delay_ms, proxy.rpc_call_timeout_ms),
        None => (DEFAULT_RETRY_COUNT, DEFAULT_RETRY_DELAY_MS, DEFAULT_CALL_TIMEOUT_MS),
    };
    NormalizedConfig {
        network_id,
        tracking: settings.tracking,
        injected_rpcs: settings.network_rpcs,
        retry: RetryConfig { retry_count, retry_delay_ms },
        settings: SettingsConfig {
            rpc_timeout_ms: settings.rpc_probe_timeout_ms,
            rpc_call_timeout_ms,
            browser_local_storage: false,
            log_level: level_name(settings.log_level),
            prune_unused_data: false,
        },
    }
}

} // verus!
