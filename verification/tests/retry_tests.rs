use ez_web3_rpc::provider::{
    attempt_rpc, create_provider, race_batch, wrap_with_retry, BatchRace, HttpOutcome, RaceStep,
    RetryAction, RetryOptions, RetryProvider, RetrySession,
};
use ez_web3_rpc::{JsonRpcResponse, JsonValue, RpcHandlerError};

fn options(retry_count: u32) -> RetryOptions {
    RetryOptions { retry_count, retry_delay_ms: 25, chain_id: 100, rpc_call_timeout_ms: 1000 }
}

fn urls(n: usize) -> Vec<String> {
    (0..n).map(|i| format!("https://rpc{}.example/", i)).collect()
}

fn response(result: &str) -> JsonRpcResponse<JsonValue> {
    JsonRpcResponse {
        jsonrpc: "2.0".to_string(),
        result: Some(JsonValue::String(result.to_string())),
        error: None,
        id: 1,
    }
}

#[test]
fn a_batch_of_three_where_only_the_third_answers_is_won_by_the_third() {
    let provider = wrap_with_retry("https://rpc0.example/".to_string(), 100, options(1));
    let session = provider.send_request(urls(3)).unwrap();
    let batch = session.current_batch();
    assert_eq!(batch, urls(3));
    let mut race = race_batch(&batch);
    let first = attempt_rpc(&batch[0], HttpOutcome::TimedOut { description: "deadline".to_string() });
    assert_eq!(race.reply_arrived(&first), RaceStep::Pending);
    let second = attempt_rpc(
        &batch[1],
        HttpOutcome::Answered { status_ok: false, body: Err("unread".to_string()) },
    );
    assert_eq!(race.reply_arrived(&second), RaceStep::Pending);
    let third =
        attempt_rpc(&batch[2], HttpOutcome::Answered { status_ok: true, body: Ok(response("0xabc")) });
    assert_eq!(race.reply_arrived(&third), RaceStep::Won);
    assert_eq!(third, Ok(response("0xabc")));
    assert!(!session.is_exhausted());
}

#[test]
fn the_first_response_to_arrive_wins_wherever_its_endpoint_stands() {
    let batch = urls(3);
    let mut race = race_batch(&batch);
    assert_eq!(race.step(), RaceStep::Pending);
    let from_the_third: Result<&str, &str> = Ok("fast");
    assert_eq!(race.reply_arrived(&from_the_third), RaceStep::Won);
    let from_the_first: Result<&str, &str> = Ok("slow");
    assert_eq!(race.reply_arrived(&from_the_first), RaceStep::Won);
    assert_eq!(race.step(), RaceStep::Won);

    let mut race = BatchRace::new(3);
    let failed: Result<&str, &str> = Err("down");
    assert_eq!(race.reply_arrived(&failed), RaceStep::Pending);
    assert_eq!(race.reply_arrived(&from_the_third), RaceStep::Won);
    assert_eq!(race.reply_arrived(&failed), RaceStep::Won);
}

#[test]
fn a_batch_fails_when_its_last_endpoint_has_failed() {
    let failed: Result<u8, u8> = Err(1);
    let mut race = BatchRace::new(3);
    assert_eq!(race.reply_arrived(&failed), RaceStep::Pending);
    assert_eq!(race.reply_arrived(&failed), RaceStep::Pending);
    assert_eq!(race.reply_arrived(&failed), RaceStep::BatchFailed);
    let late: Result<u8, u8> = Ok(2);
    assert_eq!(race.reply_arrived(&late), RaceStep::BatchFailed);
    let mut race = BatchRace::new(1);
    assert_eq!(race.reply_arrived(&failed), RaceStep::BatchFailed);
    assert_eq!(BatchRace::new(0).step(), RaceStep::BatchFailed);
}

#[test]
fn all_endpoints_failing_gives_up_after_every_pass_and_not_before() {
    let retry_count = 2;
    let mut session = RetrySession::new(urls(7), &options(retry_count));
    let mut sizes = Vec::new();
    let mut waits = 0;
    let outcome = loop {
        assert!(!session.is_exhausted());
        sizes.push(session.current_batch().len());
        match session.batch_failed() {
            RetryAction::Wait { delay_ms } => {
                assert_eq!(delay_ms, 25);
                waits += 1;
            }
            RetryAction::GiveUp(error) => break error,
        }
    };
    assert_eq!(outcome, RpcHandlerError::AllEndpointsFailed);
    assert_eq!(sizes, vec![3, 3, 1, 3, 3, 1]);
    assert_eq!(waits, 5);
    assert!(session.is_exhausted());
    assert!(session.current_batch().is_empty());
    assert!(matches!(session.batch_failed(), RetryAction::GiveUp(RpcHandlerError::AllEndpointsFailed)));
}

#[test]
fn batches_follow_the_order_of_the_urls() {
    let mut session = RetrySession::new(urls(5), &options(3));
    assert_eq!(session.current_batch(), urls(5)[0..3].to_vec());
    session.batch_failed();
    assert_eq!(session.current_batch(), urls(5)[3..5].to_vec());
    session.batch_failed();
    assert_eq!(session.current_batch(), urls(5)[0..3].to_vec());
    assert_eq!(session.rpc_call_timeout_ms(), 1000);
}

#[test]
fn a_single_pass_over_a_single_batch_fails_at_once() {
    let mut session = RetrySession::new(urls(3), &options(1));
    assert_eq!(session.current_batch().len(), 3);
    assert!(matches!(session.batch_failed(), RetryAction::GiveUp(RpcHandlerError::AllEndpointsFailed)));
}

#[test]
fn no_pass_means_no_attempt() {
    let mut session = RetrySession::new(urls(3), &options(0));
    assert!(session.is_exhausted());
    assert!(session.current_batch().is_empty());
    assert!(matches!(session.batch_failed(), RetryAction::GiveUp(RpcHandlerError::AllEndpointsFailed)));
}

#[test]
fn the_base_url_goes_in_front_unless_it_is_among_the_urls() {
    let provider = RetryProvider::new("https://base.example/".to_string(), 100, options(1));
    let session = provider.send_request(urls(2)).unwrap();
    assert_eq!(
        session.current_batch(),
        vec!["https://base.example/", "https://rpc0.example/", "https://rpc1.example/"]
    );
    let provider = RetryProvider::new("https://rpc1.example/".to_string(), 100, options(1));
    let session = provider.send_request(urls(2)).unwrap();
    assert_eq!(session.current_batch(), urls(2));
    let session = provider.send_request(vec![]).unwrap();
    assert_eq!(session.current_batch(), vec!["https://rpc1.example/"]);
}

#[test]
fn every_kind_of_failed_call_has_its_error() {
    let url = "https://rpc.example/";
    assert_eq!(
        attempt_rpc(url, HttpOutcome::TimedOut { description: "deadline has elapsed".to_string() }),
        Err(RpcHandlerError::TimeoutError("deadline has elapsed".to_string()))
    );
    assert_eq!(
        attempt_rpc(url, HttpOutcome::Failed { description: "connection refused".to_string() }),
        Err(RpcHandlerError::Network("connection refused".to_string()))
    );
    assert_eq!(
        attempt_rpc(url, HttpOutcome::Answered { status_ok: false, body: Ok(response("x")) }),
        Err(RpcHandlerError::JsonRpc(url.to_string()))
    );
    assert_eq!(
        attempt_rpc(url, HttpOutcome::Answered { status_ok: true, body: Err("bad json".to_string()) }),
        Err(RpcHandlerError::Network("bad json".to_string()))
    );
    assert_eq!(
        attempt_rpc(url, HttpOutcome::Answered { status_ok: true, body: Ok(response("x")) }),
        Ok(response("x"))
    );
}

#[test]
fn create_provider_keeps_url_and_network() {
    let provider = create_provider("https://rpc.example/".to_string(), 100).unwrap();
    assert_eq!(provider.url, "https://rpc.example/");
    assert_eq!(provider.chain_id, 100);
}
