use ez_web3_rpc::chainlist::ChainCatalog;
use ez_web3_rpc::handler::{ordered_urls, should_log, Selection};
use ez_web3_rpc::performance::LatencyMap;
use ez_web3_rpc::provider::{attempt_rpc, race_batch, HttpOutcome, RaceStep, RetryAction};
use ez_web3_rpc::{
    HandlerConfig, HandlerSettings, JsonRpcResponse, JsonValue, LogLevel, ProxySettings, Rpc,
    RpcHandler, RpcHandlerError, Strategy, Tracking, WipeChainData,
};

// A network id that no catalog entry has, so that only the endpoints given here count.
const TEST_NETWORK_ID: u64 = 424242;

fn empty_catalog() -> ChainCatalog {
    ChainCatalog { chain_data: vec![], chain_ids: vec![], extra_rpcs: vec![] }
}

fn config(urls: &[&str], proxy: ProxySettings) -> HandlerConfig {
    HandlerConfig {
        network_id: TEST_NETWORK_ID,
        settings: Some(HandlerSettings {
            log_level: LogLevel::Error,
            tracking: Tracking::Limited,
            network_rpcs: urls
                .iter()
                .map(|u| Rpc {
                    url: u.to_string(),
                    tracking: None,
                    tracking_details: None,
                    is_open_source: Some(true),
                })
                .collect(),
            network_name: "local".to_string(),
            rpc_probe_timeout_ms: 5000,
            proxy_settings: Some(proxy),
            wipe_chain_data: WipeChainData { clear_data: true, retain_these_chains: vec![TEST_NETWORK_ID] },
        }),
    }
}

fn latencies(entries: &[(&str, u64)]) -> LatencyMap {
    let mut map = LatencyMap::new();
    for (url, latency) in entries {
        map.insert(url.to_string(), *latency);
    }
    map
}

fn build_mock_jsonrpc_response(id: u64, result: JsonValue) -> JsonRpcResponse<JsonValue> {
    JsonRpcResponse { jsonrpc: "2.0".to_string(), result: Some(result), error: None, id }
}

#[test]
fn test_handler_initializes_and_selects_fastest_rpc() {
    let slow = "http://127.0.0.1:4001/";
    let fast = "http://127.0.0.1:4002/";
    let mut handler =
        RpcHandler::new(&empty_catalog(), config(&[slow, fast], ProxySettings::default()), None)
            .expect("handler init");
    assert_eq!(handler.strategy(), Strategy::Fastest);
    assert_eq!(handler.network_id, TEST_NETWORK_ID);
    assert_eq!(handler.rpcs.len(), 2);
    let found = latencies(&[(fast, 5), (slow, 55)]);
    let fastest = ez_web3_rpc::performance::pick_fastest(&found);
    handler.init(Selection::Fastest { fastest, latencies: found }).expect("handler init");
    let fastest = handler.get_fastest_rpc().expect("fastest rpc");
    assert_eq!(fastest, fast);
    assert_eq!(handler.get_provider_url().unwrap(), fast);
    assert_eq!(handler.get_latencies().len(), 2);
    let provider = handler.get_provider().unwrap();
    assert_eq!(provider.chain_id, TEST_NETWORK_ID);
    assert_eq!(provider.options.retry_count, 3);
    assert_eq!(provider.options.retry_delay_ms, 1000);
    assert_eq!(provider.options.rpc_call_timeout_ms, 5000);
}

#[test]
fn test_try_proxy_request_success() {
    let url = "http://127.0.0.1:4003/";
    let proxy = ProxySettings { retry_count: 1, retry_delay_ms: 10, rpc_call_timeout_ms: 1000 };
    let mut handler = RpcHandler::new(&empty_catalog(), config(&[url], proxy), None).unwrap();
    handler
        .init(Selection::Fastest { fastest: Some(url.to_string()), latencies: latencies(&[(url, 10)]) })
        .unwrap();
    let session = handler.try_proxy_request().expect("proxy request success");
    let batch = session.current_batch();
    assert_eq!(batch, vec![url]);
    let reply = attempt_rpc(
        &batch[0],
        HttpOutcome::Answered {
            status_ok: true,
            body: Ok(build_mock_jsonrpc_response(42, JsonValue::String("0xabc".to_string()))),
        },
    );
    assert_eq!(race_batch(&batch).reply_arrived(&reply), RaceStep::Won);
    let resp = reply.as_ref().expect("proxy request success");
    assert!(resp.error.is_none());
    assert_eq!(resp.result.clone().unwrap(), JsonValue::String("0xabc".to_string()));
}

#[test]
fn test_try_proxy_request_all_fail() {
    let url = "http://127.0.0.1:4004/";
    let proxy = ProxySettings { retry_count: 3, retry_delay_ms: 5, rpc_call_timeout_ms: 1000 };
    let mut handler = RpcHandler::new(&empty_catalog(), config(&[url], proxy), None).unwrap();
    handler
        .init(Selection::Fastest { fastest: Some(url.to_string()), latencies: latencies(&[(url, 10)]) })
        .unwrap();
    let mut session = handler.try_proxy_request().unwrap();
    let mut attempts = 0;
    let err = loop {
        let batch = session.current_batch();
        let mut race = race_batch(&batch);
        let mut step = race.step();
        for u in &batch {
            let reply =
                attempt_rpc(u, HttpOutcome::Answered { status_ok: false, body: Err(String::new()) });
            assert!(matches!(reply, Err(RpcHandlerError::JsonRpc(_))));
            step = race.reply_arrived(&reply);
        }
        assert_eq!(step, RaceStep::BatchFailed);
        attempts += 1;
        match session.batch_failed() {
            RetryAction::Wait { delay_ms } => assert_eq!(delay_ms, 5),
            RetryAction::GiveUp(error) => break error,
        }
    };
    assert!(matches!(err, RpcHandlerError::AllEndpointsFailed | RpcHandlerError::JsonRpc(_)));
    assert_eq!(attempts, 3);
}

#[test]
fn test_get_fastest_rpc_no_available() {
    let proxy = ProxySettings { retry_count: 1, retry_delay_ms: 1, rpc_call_timeout_ms: 50 };
    let mut handler = RpcHandler::new(&empty_catalog(), config(&[], proxy), None).unwrap();
    let err = handler
        .init(Selection::Fastest { fastest: None, latencies: LatencyMap::new() })
        .err()
        .expect("expected error");
    assert!(matches!(err, RpcHandlerError::NoAvailableRpcs { .. }));
    let err = handler.get_fastest_rpc().err().expect("expected error");
    assert!(matches!(err, RpcHandlerError::NoAvailableRpcs { .. }));
    assert_eq!(
        handler.get_provider_url(),
        Err(RpcHandlerError::NoAvailableRpcs { network_id: TEST_NETWORK_ID })
    );
    assert_eq!(
        handler.try_proxy_request().err(),
        Some(RpcHandlerError::NoAvailableRpcs { network_id: TEST_NETWORK_ID })
    );
}

#[test]
fn refresh_keeps_the_provider_when_nothing_is_found() {
    let a = "https://a.example/";
    let b = "https://b.example/";
    let mut handler = RpcHandler::new(
        &empty_catalog(),
        config(&[a, b], ProxySettings::default()),
        Some(Strategy::FirstHealthy),
    )
    .unwrap();
    assert_eq!(handler.strategy(), Strategy::FirstHealthy);
    assert_eq!(
        handler.init(Selection::FirstHealthy { url: None }),
        Err(RpcHandlerError::NoAvailableRpcs { network_id: TEST_NETWORK_ID })
    );
    assert_eq!(handler.init(Selection::FirstHealthy { url: Some(a.to_string()) }), Ok(()));
    assert_eq!(handler.refresh(Selection::FirstHealthy { url: None }), Ok(()));
    assert_eq!(handler.get_provider_url().unwrap(), a);
    assert_eq!(
        handler.refresh(Selection::Fastest { fastest: None, latencies: latencies(&[(b, 1)]) }),
        Ok(())
    );
    assert_eq!(handler.get_provider_url().unwrap(), a);
    assert_eq!(handler.get_latencies().len(), 0);
    assert_eq!(
        handler.refresh(Selection::Fastest { fastest: Some(b.to_string()), latencies: latencies(&[(b, 1)]) }),
        Ok(())
    );
    assert_eq!(handler.get_provider_url().unwrap(), b);
    assert_eq!(handler.get_latencies().get(b), Some(&1));
}

#[test]
fn requests_go_to_the_known_urls_by_ascending_latency() {
    let found = latencies(&[
        ("https://c.example/", 30),
        ("https://a.example/", 10),
        ("https://d.example/", 10),
        ("https://b.example/", 20),
    ]);
    assert_eq!(
        ordered_urls(&found),
        vec!["https://a.example/", "https://d.example/", "https://b.example/", "https://c.example/"]
    );
    assert!(ordered_urls(&LatencyMap::new()).is_empty());
    let mut handler = RpcHandler::new(
        &empty_catalog(),
        config(&["https://base.example/"], ProxySettings::default()),
        None,
    )
    .unwrap();
    handler
        .init(Selection::Fastest { fastest: Some("https://base.example/".to_string()), latencies: found })
        .unwrap();
    let mut session = handler.try_proxy_request().unwrap();
    assert_eq!(
        session.current_batch(),
        vec!["https://base.example/", "https://a.example/", "https://d.example/"]
    );
    session.batch_failed();
    assert_eq!(session.current_batch(), vec!["https://b.example/", "https://c.example/"]);
}

#[test]
fn log_levels_by_name() {
    let names = ["error", "warn", "info", "debug", "trace"];
    for (i, configured) in names.iter().enumerate() {
        for (j, level) in names.iter().enumerate() {
            assert_eq!(should_log(configured, level), j <= i);
        }
    }
    assert!(should_log("trace", "anything"));
    assert!(!should_log("debug", "anything"));
    assert!(!should_log("verbose", "error"));
}

#[test]
fn probing_again_is_due_with_few_latencies_or_after_three_requests() {
    let a = "https://a.example/";
    let b = "https://b.example/";
    let mut handler =
        RpcHandler::new(&empty_catalog(), config(&[a, b], ProxySettings::default()), None).unwrap();
    assert!(handler.refresh_due());
    handler
        .init(Selection::Fastest { fastest: Some(a.to_string()), latencies: latencies(&[(a, 1)]) })
        .unwrap();
    assert!(handler.refresh_due());
    handler
        .refresh(Selection::Fastest {
            fastest: Some(a.to_string()),
            latencies: latencies(&[(a, 1), (b, 2)]),
        })
        .unwrap();
    let due: Vec<bool> = (0..9).map(|_| handler.refresh_due()).collect();
    assert_eq!(due, vec![false, false, false, true, false, false, false, true, false]);
}
