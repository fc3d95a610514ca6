use ez_web3_rpc::calls::{
    decide_bft_consensus, decide_consensus, is_websocket_url, judge_request, quorum, tally_votes,
    ConsensusOptions, ConsensusRound, RequestFailure, RequestOutcome,
};
use ez_web3_rpc::chainlist::ChainCatalog;
use ez_web3_rpc::cooldown::CooldownInfo;
use ez_web3_rpc::{
    HandlerConfig, HandlerSettings, JsonMember, JsonValue, LogLevel, ProxySettings, Rpc, RpcCalls,
    RpcHandler, RpcHandlerError, Tracking, WipeChainData,
};

const NETWORK: u64 = 424242;

fn s(text: &str) -> JsonValue {
    JsonValue::String(text.to_string())
}

fn engine(urls: &[&str]) -> RpcCalls {
    let catalog = ChainCatalog { chain_data: vec![], chain_ids: vec![], extra_rpcs: vec![] };
    let config = HandlerConfig {
        network_id: NETWORK,
        settings: Some(HandlerSettings {
            log_level: LogLevel::Error,
            tracking: Tracking::Limited,
            network_rpcs: urls
                .iter()
                .map(|u| Rpc {
                    url: u.to_string(),
                    tracking: None,
                    tracking_details: None,
                    is_open_source: Some(true),
                })
                .collect(),
            network_name: "local".to_string(),
            rpc_probe_timeout_ms: 5000,
            proxy_settings: Some(ProxySettings::default()),
            wipe_chain_data: WipeChainData::new(NETWORK),
        }),
    };
    RpcCalls::new(RpcHandler::new(&catalog, config, None).unwrap())
}

fn start(calls: &RpcCalls, threshold: u32, early_abort: bool) -> ConsensusRound {
    calls.consensus_attempt(0, threshold, &ConsensusOptions::default(), early_abort).unwrap()
}

fn run(calls: &RpcCalls, threshold: u32, early_abort: bool, answers: &[&str]) -> Result<JsonValue, RpcHandlerError> {
    let mut round = start(calls, threshold, early_abort);
    let mut given = 0;
    while !round.is_finished() {
        let wave = round.next_wave();
        for _ in wave {
            round.record_success(s(answers[given]));
            given += 1;
        }
    }
    calls.consensus(&round.finish())
}

#[test]
fn consensus_options_default() {
    let options = ConsensusOptions::default();
    assert_eq!(options.timeout_ms, Some(8000));
    assert_eq!(options.concurrency, Some(4));
    assert_eq!(options.cooldown_ms, Some(30000));
}

#[test]
fn quorum_is_the_share_rounded_up() {
    assert_eq!(quorum(3, 6600), 2);
    assert_eq!(quorum(5, 8000), 4);
    assert_eq!(quorum(5, 6000), 3);
    assert_eq!(quorum(5, 6001), 4);
    assert_eq!(quorum(5, 10000), 5);
    assert_eq!(quorum(1, 1), 1);
    assert_eq!(quorum(0, 6600), 0);
    assert_eq!(quorum(7, 0), 0);
    assert_eq!(quorum(3, 20000), 6);
}

#[test]
fn two_of_three_agreeing_meet_a_threshold_of_two_thirds() {
    let calls = engine(&["https://a.example/", "https://b.example/", "https://c.example/"]);
    assert_eq!(run(&calls, 6600, true, &["a", "a", "b"]), Ok(s("a")));
    assert_eq!(run(&calls, 6600, true, &["b", "a", "a"]), Ok(s("a")));
    assert_eq!(run(&calls, 6600, true, &["a", "b", "a"]), Ok(s("a")));
}

#[test]
fn three_different_answers_fail() {
    let calls = engine(&["https://a.example/", "https://b.example/", "https://c.example/"]);
    assert_eq!(
        run(&calls, 6600, true, &["a", "b", "c"]),
        Err(RpcHandlerError::ConsensusFailure { most_common: "a".to_string() })
    );
}

#[test]
fn no_response_at_all_fails_with_no_leading_key() {
    let calls = engine(&["https://a.example/", "https://b.example/"]);
    let mut round = start(&calls, 6600, true);
    assert_eq!(round.next_wave().len(), 2);
    assert!(round.next_wave().is_empty());
    let attempt = round.finish();
    assert!(!attempt.success());
    assert!(attempt.value().is_none());
    assert!(attempt.most_common_key().is_none());
    assert_eq!(
        calls.consensus(&attempt),
        Err(RpcHandlerError::ConsensusFailure { most_common: "n/a".to_string() })
    );
    assert_eq!(
        calls.bft_consensus(&attempt, 5000),
        Err(RpcHandlerError::ConsensusFailure {
            most_common: "No successful RPC responses for BFT consensus".to_string()
        })
    );
}

#[test]
fn a_round_needs_two_endpoints() {
    let none = engine(&[]);
    assert_eq!(
        none.consensus_attempt(0, 6600, &ConsensusOptions::default(), true).err(),
        Some(RpcHandlerError::NoAvailableRpcs { network_id: NETWORK })
    );
    let one = engine(&["https://a.example/"]);
    assert_eq!(
        one.consensus_attempt(0, 6600, &ConsensusOptions::default(), true).err(),
        Some(RpcHandlerError::ConsensusFailure {
            most_common: "Only one RPC available, could not reach consensus".to_string()
        })
    );
    let sockets = engine(&["wss://a.example/", "ws://b.example/", "https://c.example/"]);
    assert_eq!(
        sockets.consensus_attempt(0, 6600, &ConsensusOptions::default(), true).err(),
        Some(RpcHandlerError::ConsensusFailure {
            most_common: "Only one RPC available, could not reach consensus".to_string()
        })
    );
}

#[test]
fn a_round_asks_every_eligible_endpoint_once() {
    let urls = [
        "https://a.example/",
        "wss://b.example/",
        "https://c.example/",
        "http://d.example/",
        "https://e.example/",
        "ws://h.example/",
        "https://f.example/",
        "https://g.example/",
    ];
    let mut calls = engine(&urls);
    calls.apply_cooldown("https://e.example/", 30_000, false, 1_000);
    let options = ConsensusOptions { timeout_ms: None, concurrency: Some(2), cooldown_ms: Some(7) };
    let mut round = calls.consensus_attempt(2_000, 6600, &options, false).unwrap();
    assert_eq!(round.timeout_ms(), 8000);
    assert_eq!(round.cooldown_ms(), 7);
    let mut asked: Vec<String> = Vec::new();
    let mut sizes: Vec<usize> = Vec::new();
    while !round.is_finished() {
        let wave = round.next_wave();
        sizes.push(wave.len());
        asked.extend(wave);
    }
    assert_eq!(sizes, vec![2, 2, 1]);
    asked.sort();
    assert_eq!(
        asked,
        vec![
            "http://d.example/",
            "https://a.example/",
            "https://c.example/",
            "https://f.example/",
            "https://g.example/"
        ]
    );
    let later = calls.consensus_attempt(31_000, 6600, &options, false).unwrap();
    let mut round = later;
    let mut count = 0;
    while !round.is_finished() {
        count += round.next_wave().len();
    }
    assert_eq!(count, 6);
}

#[test]
fn an_early_quorum_stops_further_waves_but_not_the_wave_in_flight() {
    let urls = ["https://a.example/", "https://b.example/", "https://c.example/", "https://d.example/"];
    let calls = engine(&urls);
    let options = ConsensusOptions { timeout_ms: None, concurrency: Some(2), cooldown_ms: None };
    let mut round = calls.consensus_attempt(0, 6600, &options, true).unwrap();
    assert_eq!(round.next_wave().len(), 2);
    round.record_success(s("x"));
    assert!(round.is_finished());
    round.record_success(s("y"));
    assert!(round.next_wave().is_empty());
    let attempt = round.finish();
    assert_eq!(attempt.results().len(), 2);
    assert!(!attempt.success());
    assert_eq!(
        calls.consensus(&attempt),
        Err(RpcHandlerError::ConsensusFailure { most_common: "x".to_string() })
    );

    let mut round = calls.consensus_attempt(0, 6600, &options, false).unwrap();
    assert_eq!(round.next_wave().len(), 2);
    round.record_success(s("x"));
    round.record_success(s("x"));
    assert!(!round.is_finished());
    assert_eq!(round.next_wave().len(), 2);
    round.record_success(s("x"));
    round.record_success(s("y"));
    assert!(round.is_finished());
    assert_eq!(calls.consensus(&round.finish()), Ok(s("x")));
}

#[test]
fn failures_set_endpoints_aside_and_never_end_the_round() {
    let urls = ["https://a.example/", "https://b.example/", "https://c.example/"];
    let mut calls = engine(&urls);
    let mut round = start(&calls, 6600, true);
    let wave = round.next_wave();
    assert_eq!(wave.len(), 3);
    calls.fold_outcome(&mut round, "https://a.example/", RequestOutcome::TimedOut, 1_000);
    let refused = || RequestOutcome::Answered { status: 429, body: Err(String::new()) };
    calls.fold_outcome(&mut round, "https://b.example/", refused(), 1_000);
    calls.fold_outcome(&mut round, "https://b.example/", refused(), 2_000);
    let answer = RequestOutcome::Answered { status: 200, body: Ok(Some(s("ok"))) };
    calls.fold_outcome(&mut round, "https://c.example/", answer, 2_000);
    assert_eq!(
        calls.cooldowns().get("https://a.example/"),
        Some(CooldownInfo { until: 31_000, strikes: 1 })
    );
    assert_eq!(
        calls.cooldowns().get("https://b.example/"),
        Some(CooldownInfo { until: 62_000, strikes: 2 })
    );
    assert_eq!(calls.cooldowns().get("https://c.example/"), None);
    assert_eq!(calls.consensus(&round.finish()), Ok(s("ok")));
    assert_eq!(
        calls.consensus_attempt(30_999, 6600, &ConsensusOptions::default(), true).err(),
        Some(RpcHandlerError::ConsensusFailure {
            most_common: "Only one RPC available, could not reach consensus".to_string()
        })
    );
    assert!(calls.consensus_attempt(31_000, 6600, &ConsensusOptions::default(), true).is_ok());
}

#[test]
fn the_tally_groups_by_key_and_keeps_the_last_value_of_each() {
    let block = |hash: &str, extra: &str| {
        JsonValue::Object(vec![
            JsonMember { key: "hash".to_string(), value: s(hash) },
            JsonMember { key: "extra".to_string(), value: s(extra) },
        ])
    };
    let swapped = JsonValue::Object(vec![
        JsonMember { key: "extra".to_string(), value: s("e") },
        JsonMember { key: "hash".to_string(), value: s("0x1") },
    ]);
    let attempt = tally_votes(vec![block("0x2", "e"), block("0x1", "e"), swapped.clone(), s("z")], 5000);
    assert!(attempt.success());
    assert_eq!(attempt.value(), Some(&swapped));
    assert_eq!(attempt.most_common_key().unwrap(), r#"{"extra":"e","hash":"0x1"}"#);
    let counts = attempt.counts();
    assert_eq!(counts.len(), 3);
    assert_eq!(counts.get(r#"{"extra":"e","hash":"0x2"}"#), Some(&1));
    assert_eq!(counts.get(r#"{"extra":"e","hash":"0x1"}"#), Some(&2));
    assert_eq!(counts.get("z"), Some(&1));
    assert_eq!(counts.key_at(0), r#"{"extra":"e","hash":"0x2"}"#);
    assert_eq!(attempt.key_to_value().get(r#"{"extra":"e","hash":"0x1"}"#), Some(&swapped));
    assert_eq!(attempt.results().len(), 4);
}

#[test]
fn among_equal_counts_the_key_seen_first_leads() {
    let attempt = tally_votes(vec![s("b"), s("a"), s("a"), s("b")], 5000);
    assert_eq!(attempt.most_common_key().unwrap(), "b");
    assert!(attempt.success());
    assert_eq!(decide_consensus(&attempt), Ok(s("b")));
    let attempt = tally_votes(vec![s("b"), s("a"), s("a"), s("b")], 5001);
    assert!(!attempt.success());
    assert_eq!(
        decide_consensus(&attempt),
        Err(RpcHandlerError::ConsensusFailure { most_common: "b".to_string() })
    );
}

#[test]
fn relaxation_accepts_three_of_five_once_the_threshold_reaches_sixty_percent() {
    let votes = vec![s("a"), s("b"), s("a"), s("c"), s("a")];
    let attempt = tally_votes(votes, 8000);
    assert!(!attempt.success());
    assert_eq!(decide_bft_consensus(&attempt, 5000), Ok(s("a")));
    assert_eq!(decide_bft_consensus(&attempt, 6000), Ok(s("a")));
    assert_eq!(
        decide_bft_consensus(&attempt, 6001),
        Err(RpcHandlerError::ConsensusFailure {
            most_common: "Could not reach BFT consensus down to minimum threshold".to_string()
        })
    );
    assert_eq!(
        decide_consensus(&attempt),
        Err(RpcHandlerError::ConsensusFailure { most_common: "a".to_string() })
    );
}

#[test]
fn relaxation_starts_one_step_below_the_threshold() {
    let attempt = tally_votes(vec![s("a"), s("b")], 10000);
    assert!(!attempt.success());
    assert_eq!(
        decide_bft_consensus(&attempt, 5500),
        Err(RpcHandlerError::ConsensusFailure {
            most_common: "Could not reach BFT consensus down to minimum threshold".to_string()
        })
    );
    assert_eq!(decide_bft_consensus(&attempt, 5000), Ok(s("a")));
    let attempt = tally_votes(vec![s("a"), s("b"), s("c")], 400);
    assert!(attempt.success());
    let attempt = tally_votes(vec![s("a"), s("b"), s("c")], 4000);
    assert!(!attempt.success());
    assert_eq!(decide_bft_consensus(&attempt, 0), Ok(s("a")));
    assert_eq!(
        decide_bft_consensus(&attempt, 3400),
        Err(RpcHandlerError::ConsensusFailure {
            most_common: "Could not reach BFT consensus down to minimum threshold".to_string()
        })
    );
}

#[test]
fn a_round_that_met_its_threshold_needs_no_relaxation() {
    let attempt = tally_votes(vec![s("a"), s("a"), s("a"), s("a"), s("b")], 8000);
    assert!(attempt.success());
    assert_eq!(decide_bft_consensus(&attempt, 8000), Ok(s("a")));
}

#[test]
fn try_rpc_call_needs_a_provider() {
    let calls = engine(&["https://a.example/"]);
    assert_eq!(
        calls.try_rpc_call().err(),
        Some(RpcHandlerError::NoAvailableRpcs { network_id: NETWORK })
    );
}

#[test]
fn websocket_endpoints_plain_or_secure_take_no_part_in_a_round() {
    assert!(is_websocket_url("ws://a.example/"));
    assert!(is_websocket_url("wss://a.example/"));
    assert!(!is_websocket_url("https://a.example/"));
    assert!(!is_websocket_url("http://ws.example/"));
    assert!(!is_websocket_url("ws:/a.example/"));
    let calls = engine(&["ws://a.example/", "ws://b.example/"]);
    assert!(calls.eligible_urls(0).is_empty());
    assert_eq!(
        calls.consensus_attempt(0, 6600, &ConsensusOptions::default(), true).err(),
        Some(RpcHandlerError::NoAvailableRpcs { network_id: NETWORK })
    );
    let calls = engine(&["ws://a.example/", "https://b.example/", "wss://c.example/", "https://d.example/"]);
    assert_eq!(calls.eligible_urls(0), vec!["https://b.example/", "https://d.example/"]);
    let mut round = start(&calls, 6600, true);
    let mut wave = round.next_wave();
    wave.sort();
    assert_eq!(wave, vec!["https://b.example/", "https://d.example/"]);
}

#[test]
fn the_pool_errors_come_whatever_the_options_are() {
    let no_room = ConsensusOptions { timeout_ms: None, concurrency: Some(0), cooldown_ms: None };
    let none = engine(&["wss://a.example/"]);
    assert_eq!(
        none.consensus_attempt(0, 6600, &no_room, true).err(),
        Some(RpcHandlerError::NoAvailableRpcs { network_id: NETWORK })
    );
    let one = engine(&["https://a.example/"]);
    assert_eq!(
        one.consensus_attempt(0, 6600, &no_room, true).err(),
        Some(RpcHandlerError::ConsensusFailure {
            most_common: "Only one RPC available, could not reach consensus".to_string()
        })
    );
}

#[test]
fn a_request_is_a_vote_only_with_a_success_status_and_a_result() {
    let answered = |status: u16, body| RequestOutcome::Answered { status, body };
    assert_eq!(judge_request(answered(200, Ok(Some(s("0x1"))))), Ok(s("0x1")));
    assert_eq!(judge_request(answered(299, Ok(Some(JsonValue::Null)))), Ok(JsonValue::Null));
    assert!(answered(204, Ok(Some(s("x")))).is_response());
    assert!(!answered(300, Ok(Some(s("x")))).is_response());
    assert!(!answered(200, Ok(None)).is_response());
    assert!(!RequestOutcome::TimedOut.is_response());
    let failure = |error: &str, rate_limited| Err(RequestFailure { error: error.to_string(), rate_limited });
    assert_eq!(judge_request(answered(200, Ok(None))), failure("No result in response", false));
    assert_eq!(
        judge_request(answered(200, Err("expected value at line 1".to_string()))),
        failure("JSON parse error: expected value at line 1", false)
    );
    assert_eq!(judge_request(answered(500, Ok(Some(s("x"))))), failure("HTTP error 500", false));
    assert_eq!(judge_request(answered(199, Ok(Some(s("x"))))), failure("HTTP error 199", false));
    assert_eq!(judge_request(answered(300, Ok(None))), failure("HTTP error 300", false));
    assert_eq!(judge_request(RequestOutcome::TimedOut), failure("Timeout", false));
    assert_eq!(
        judge_request(RequestOutcome::Failed { description: "connection refused".to_string() }),
        failure("Request error: connection refused", false)
    );
}

#[test]
fn a_429_answer_is_a_failure_for_rate_limiting() {
    let answered = |status: u16, body| RequestOutcome::Answered { status, body };
    assert_eq!(
        judge_request(answered(429, Ok(Some(s("x"))))),
        Err(RequestFailure { error: "HTTP error 429".to_string(), rate_limited: true })
    );
    assert_eq!(
        judge_request(answered(429, Err(String::new()))),
        Err(RequestFailure { error: "HTTP error 429".to_string(), rate_limited: true })
    );
    assert_eq!(
        judge_request(RequestOutcome::Failed { description: "status 429 from proxy".to_string() }),
        Err(RequestFailure { error: "Request error: status 429 from proxy".to_string(), rate_limited: true })
    );
    assert_eq!(
        judge_request(answered(200, Err("429".to_string()))),
        Err(RequestFailure { error: "JSON parse error: 429".to_string(), rate_limited: true })
    );
    assert_eq!(
        judge_request(answered(428, Ok(None))),
        Err(RequestFailure { error: "HTTP error 428".to_string(), rate_limited: false })
    );
}

#[test]
fn a_second_strike_by_a_429_answer_doubles_the_cooldown() {
    let urls = ["https://a.example/", "https://b.example/", "https://c.example/"];
    let mut calls = engine(&urls);
    let options = ConsensusOptions { timeout_ms: None, concurrency: None, cooldown_ms: Some(30_000) };
    let mut round = calls.consensus_attempt(0, 6600, &options, false).unwrap();
    calls.fold_outcome(&mut round, urls[0], RequestOutcome::TimedOut, 0);
    calls.fold_outcome(&mut round, urls[1], RequestOutcome::TimedOut, 0);
    assert_eq!(calls.cooldowns().get(urls[0]), Some(CooldownInfo { until: 30_000, strikes: 1 }));
    let now = 100_000;
    let mut round = calls.consensus_attempt(now, 6600, &options, false).unwrap();
    let refused = RequestOutcome::Answered { status: 429, body: Err(String::new()) };
    calls.fold_outcome(&mut round, urls[0], refused, now);
    let plain = RequestOutcome::Answered { status: 503, body: Err(String::new()) };
    calls.fold_outcome(&mut round, urls[1], plain, now);
    assert_eq!(calls.cooldowns().get(urls[0]), Some(CooldownInfo { until: now + 60_000, strikes: 2 }));
    assert_eq!(calls.cooldowns().get(urls[1]), Some(CooldownInfo { until: now + 45_000, strikes: 2 }));
    assert_eq!(round.finish().results().len(), 0);
    let failure = RequestFailure { error: "told".to_string(), rate_limited: true };
    let round = calls.consensus_attempt(now + 60_000, 6600, &options, false).unwrap();
    calls.record_failure(&round, urls[2], &failure, now + 60_000);
    assert_eq!(calls.cooldowns().get(urls[2]), Some(CooldownInfo { until: now + 90_000, strikes: 1 }));
}
