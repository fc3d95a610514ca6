use ez_web3_rpc::chainlist::{get_chain_ids, ChainCatalog, ChainInfo};
use ez_web3_rpc::config::{level_name, resolve_config};
use ez_web3_rpc::rpc::{select_base_rpc_set, should_include};
use ez_web3_rpc::text::{format_decimal, parse_decimal};
use ez_web3_rpc::{
    HandlerConfig, HandlerSettings, JsonMember, JsonValue, LatencyRecord, LogLevel, ProxySettings,
    Rpc, Tracking, WipeChainData,
};

fn catalog() -> ChainCatalog {
    ChainCatalog {
        chain_data: vec![ChainInfo { chain_id: 100, name: "gnosis".to_string(), tvl: 10 }],
        chain_ids: vec![(100, "gnosis".to_string())],
        extra_rpcs: vec![],
    }
}

fn rpc(url: &str, tracking: Option<Tracking>) -> Rpc {
    Rpc { url: url.to_string(), tracking, tracking_details: None, is_open_source: None }
}

#[test]
fn test_proxy_settings_default() {
    let d = ProxySettings::default();
    assert_eq!(d.retry_count, 3);
    assert_eq!(d.retry_delay_ms, 1000);
    assert_eq!(d.rpc_call_timeout_ms, 5000);
}

#[test]
fn test_handler_config_new_defaults() {
    let catalog = catalog();
    let maybe_id = get_chain_ids(&catalog).first().cloned();
    if let Some((id, name)) = maybe_id {
        let cfg = HandlerConfig::new(&catalog, id);
        let settings = cfg.settings.unwrap();
        assert_eq!(settings.network_name, name);
        assert_eq!(settings.log_level, LogLevel::Error);
        assert_eq!(settings.tracking, Tracking::Limited);
        assert!(settings.proxy_settings.is_some());
        assert_eq!(settings.rpc_probe_timeout_ms, 3000);
        assert!(settings.wipe_chain_data.clear_data);
        assert_eq!(settings.wipe_chain_data.retain_these_chains, vec![id]);
    }
}

fn from_serde(value: serde_json::Value) -> JsonValue {
    match value {
        serde_json::Value::Null => JsonValue::Null,
        serde_json::Value::Bool(b) => JsonValue::Bool(b),
        serde_json::Value::Number(n) => JsonValue::Number(n.to_string()),
        serde_json::Value::String(s) => JsonValue::String(s),
        serde_json::Value::Array(items) => JsonValue::Array(items.into_iter().map(from_serde).collect()),
        serde_json::Value::Object(members) => JsonValue::Object(
            members.into_iter().map(|(key, value)| JsonMember { key, value: from_serde(value) }).collect(),
        ),
    }
}

#[test]
fn test_latency_record_serialization_roundtrip() {
    let now = std::time::SystemTime::now()
        .duration_since(std::time::UNIX_EPOCH)
        .unwrap()
        .as_secs();
    let record = LatencyRecord { latency_ms: 42, last_tested: now, failure_count: 1 };
    let json = record.to_json().to_text();
    let parsed: serde_json::Value = serde_json::from_str(&json).unwrap();
    let deser = LatencyRecord::from_json(&from_serde(parsed)).unwrap();
    assert_eq!(deser.latency_ms, 42);
    assert_eq!(deser.failure_count, 1);
    assert_eq!(deser, record);
}

#[test]
fn a_latency_record_is_written_as_three_numbers() {
    let record = LatencyRecord { latency_ms: 42, last_tested: 1_700_000_000, failure_count: 1 };
    assert_eq!(
        record.to_json().to_text(),
        r#"{"latency_ms":42,"last_tested":1700000000,"failure_count":1}"#
    );
    let extremes = LatencyRecord { latency_ms: u64::MAX, last_tested: 0, failure_count: u32::MAX };
    assert_eq!(
        extremes.to_json().to_text(),
        r#"{"latency_ms":18446744073709551615,"last_tested":0,"failure_count":4294967295}"#
    );
    assert_eq!(LatencyRecord::from_json(&extremes.to_json()), Some(extremes));
}

#[test]
fn a_latency_record_is_read_only_from_whole_numbers_that_fit() {
    let object = |latency: JsonValue, tested: JsonValue, failures: JsonValue| {
        JsonValue::Object(vec![
            JsonMember { key: "failure_count".to_string(), value: failures },
            JsonMember { key: "extra".to_string(), value: JsonValue::Null },
            JsonMember { key: "latency_ms".to_string(), value: latency },
            JsonMember { key: "last_tested".to_string(), value: tested },
        ])
    };
    let n = |text: &str| JsonValue::Number(text.to_string());
    assert_eq!(
        LatencyRecord::from_json(&object(n("5"), n("6"), n("7"))),
        Some(LatencyRecord { latency_ms: 5, last_tested: 6, failure_count: 7 })
    );
    assert_eq!(LatencyRecord::from_json(&object(n("5.5"), n("6"), n("7"))), None);
    assert_eq!(LatencyRecord::from_json(&object(n("-5"), n("6"), n("7"))), None);
    assert_eq!(LatencyRecord::from_json(&object(n("5"), n("6"), n("4294967296"))), None);
    assert_eq!(LatencyRecord::from_json(&object(n("18446744073709551616"), n("6"), n("7"))), None);
    assert_eq!(
        LatencyRecord::from_json(&object(JsonValue::String("5".to_string()), n("6"), n("7"))),
        None
    );
    assert_eq!(LatencyRecord::from_json(&JsonValue::Object(vec![])), None);
    assert_eq!(LatencyRecord::from_json(&JsonValue::Null), None);
}

#[test]
fn decimal_digits() {
    assert_eq!(format_decimal(0), "0");
    assert_eq!(format_decimal(7), "7");
    assert_eq!(format_decimal(10), "10");
    assert_eq!(format_decimal(1234567890), "1234567890");
    assert_eq!(format_decimal(u64::MAX), "18446744073709551615");
    assert_eq!(parse_decimal("0"), Some(0));
    assert_eq!(parse_decimal("007"), Some(7));
    assert_eq!(parse_decimal("18446744073709551615"), Some(u64::MAX));
    assert_eq!(parse_decimal("18446744073709551616"), None);
    assert_eq!(parse_decimal("99999999999999999999999"), None);
    assert_eq!(parse_decimal(""), None);
    assert_eq!(parse_decimal("+1"), None);
    assert_eq!(parse_decimal("1e3"), None);
    assert_eq!(parse_decimal("12a"), None);
    assert_eq!(parse_decimal("١٢"), None);
    for n in [0u64, 9, 10, 99, 100, 65535, 1 << 40, u64::MAX - 1] {
        assert_eq!(parse_decimal(&format_decimal(n)), Some(n));
    }
}

#[test]
fn latency_record_keeps_its_fields() {
    let record = LatencyRecord { latency_ms: 42, last_tested: 1_700_000_000, failure_count: 1 };
    let copy = record;
    assert_eq!(copy.latency_ms, 42);
    assert_eq!(copy.failure_count, 1);
    assert_eq!(copy, record);
}

#[test]
fn log_level_allows_what_is_no_more_verbose() {
    let levels = [LogLevel::Error, LogLevel::Warn, LogLevel::Info, LogLevel::Debug, LogLevel::Trace];
    for (i, configured) in levels.iter().enumerate() {
        for (j, event) in levels.iter().enumerate() {
            assert_eq!(configured.allows(event), j <= i);
        }
    }
}

#[test]
fn wipe_chain_data_new_retains_the_network() {
    let wipe = WipeChainData::new(7);
    assert!(wipe.clear_data);
    assert_eq!(wipe.retain_these_chains, vec![7]);
}

#[test]
fn resolve_config_takes_the_callers_values() {
    let config = HandlerConfig {
        network_id: 100,
        settings: Some(HandlerSettings {
            log_level: LogLevel::Debug,
            tracking: Tracking::NoTracking,
            network_rpcs: vec![rpc("http://localhost:8545/", None)],
            network_name: "local".to_string(),
            rpc_probe_timeout_ms: 1234,
            proxy_settings: Some(ProxySettings {
                retry_count: 7,
                retry_delay_ms: 11,
                rpc_call_timeout_ms: 13,
            }),
            wipe_chain_data: WipeChainData::new(100),
        }),
    };
    let normalized = resolve_config(config);
    assert_eq!(normalized.network_id, 100);
    assert_eq!(normalized.tracking, Tracking::NoTracking);
    assert_eq!(normalized.injected_rpcs, vec![rpc("http://localhost:8545/", None)]);
    assert_eq!(normalized.retry.retry_count, 7);
    assert_eq!(normalized.retry.retry_delay_ms, 11);
    assert_eq!(normalized.settings.rpc_timeout_ms, 1234);
    assert_eq!(normalized.settings.rpc_call_timeout_ms, 13);
    assert_eq!(normalized.settings.log_level, "debug");
    assert!(!normalized.settings.browser_local_storage);
    assert!(!normalized.settings.prune_unused_data);
}

#[test]
fn resolve_config_fills_in_the_defaults() {
    let mut settings = HandlerSettings::default();
    settings.log_level = LogLevel::Trace;
    let normalized = resolve_config(HandlerConfig { network_id: 5, settings: Some(settings) });
    assert_eq!(normalized.retry.retry_count, 3);
    assert_eq!(normalized.retry.retry_delay_ms, 100);
    assert_eq!(normalized.settings.rpc_call_timeout_ms, 10000);
    assert_eq!(normalized.settings.log_level, "trace");

    let normalized = resolve_config(HandlerConfig { network_id: 5, settings: None });
    assert_eq!(normalized.tracking, Tracking::Limited);
    assert!(normalized.injected_rpcs.is_empty());
    assert_eq!(normalized.retry.retry_count, 3);
    assert_eq!(normalized.retry.retry_delay_ms, 100);
    assert_eq!(normalized.settings.rpc_timeout_ms, 3000);
    assert_eq!(normalized.settings.rpc_call_timeout_ms, 10000);
    assert_eq!(normalized.settings.log_level, "error");
}

#[test]
fn level_names() {
    assert_eq!(level_name(LogLevel::Error), "error");
    assert_eq!(level_name(LogLevel::Warn), "warn");
    assert_eq!(level_name(LogLevel::Info), "info");
    assert_eq!(level_name(LogLevel::Debug), "debug");
    assert_eq!(level_name(LogLevel::Trace), "trace");
}

#[test]
fn select_base_rpc_set_puts_the_callers_endpoints_first() {
    let catalog = ChainCatalog {
        chain_data: vec![],
        chain_ids: vec![],
        extra_rpcs: vec![ez_web3_rpc::chainlist::ChainRpcs {
            chain_id: 100,
            urls: vec!["https://one.example".to_string(), "https://two.example".to_string()],
        }],
    };
    let injected = vec![rpc("http://localhost:8545/", Some(Tracking::Yes))];
    for preference in [Tracking::Yes, Tracking::Limited, Tracking::NoTracking] {
        let rpcs = select_base_rpc_set(&catalog, 100, preference, injected.clone());
        let urls: Vec<&str> = rpcs.iter().map(|r| r.url.as_str()).collect();
        assert_eq!(urls, vec!["http://localhost:8545/", "https://one.example/", "https://two.example/"]);
    }
    let rpcs = select_base_rpc_set(&catalog, 1, Tracking::Yes, injected.clone());
    assert_eq!(rpcs, injected);
}

#[test]
fn should_include_follows_the_tracking_preference() {
    let levels = [None, Some(Tracking::Yes), Some(Tracking::Limited), Some(Tracking::NoTracking)];
    let expect_yes = [true, true, true, true];
    let expect_limited = [true, false, true, true];
    let expect_none = [false, false, false, true];
    for (i, level) in levels.iter().enumerate() {
        let r = rpc("https://x.example/", *level);
        assert_eq!(should_include(Tracking::Yes, &r), expect_yes[i]);
        assert_eq!(should_include(Tracking::Limited, &r), expect_limited[i]);
        assert_eq!(should_include(Tracking::NoTracking, &r), expect_none[i]);
    }
}
