//! Turning a caller's settings into the values the engine works with.

pub mod resolve_config;

pub use resolve_config::{
    is_normal_form_of, level_name, resolve_config, NormalizedConfig, RetryConfig, SettingsConfig,
};
