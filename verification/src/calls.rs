//! Quorum consensus over the answers of several providers.

use crate::cooldown::{cooldown_delay, CooldownTracker, MAX_COOLDOWN_MS};
use crate::error::RpcHandlerError;
use crate::handler::RpcHandler;
use crate::provider::retry_proxy::RetrySession;
use crate::shuffle::shuffle_strings;
use crate::json::{items_view, stable_key, stable_string, JsonTerm, JsonValue};
use crate::string_map::{
    distinct_keys, is_leader, last_index_of, lemma_absent_key, lemma_leader_unique, occurrences,
    StringMap,
};
use crate::text::{contains, decimal, format_decimal, occurs_in, starts_with, texts};
use crate::types::rpc_urls;
use vstd::utf8::encode_utf8;
use vstd::prelude::*;
use vstd::string::*;

verus! {

/// Limits of one consensus round. A field left out takes its default:
/// 8000 ms per request, 4 requests in flight, 30000 ms base cooldown.
#[derive(Debug, Clone, Copy, PartialEq, Eq, Structural)]
pub struct ConsensusOptions {
    pub timeout_ms: Option<u64>,
    pub concurrency: Option<usize>,
    pub cooldown_ms: Option<u64>,
}

impl Default for ConsensusOptions {
    fn default() -> (options: Self)
        ensures
            options == (ConsensusOptions {
                timeout_ms: Some(8000),
                concurrency: Some(4),
                cooldown_ms: Some(30000),
            }),
    {
        ConsensusOptions { timeout_ms: Some(8000), concurrency: Some(4), cooldown_ms: Some(30000) }
    }
}

/// One whole, in the unit thresholds are given in: a threshold of 6600 asks
/// for 66% of the responses.
pub const FULL_THRESHOLD: u32 = 10_000;

/// How far the threshold is lowered at each step of the relaxation: 5%.
pub const RELAXATION_STEP: u32 = 500;

/// The votes a key needs among `total` responses to meet `threshold`:
/// `total * threshold / 10000`, rounded up.
pub open spec fn quorum_needed(total: nat, threshold: nat) -> nat {
    ((total * threshold + 9_999) / 10_000) as nat
}

/// The comparison keys of the responses, in order.
pub open spec fn vote_keys(results: Seq<JsonTerm>) -> Seq<Seq<char>> {
    Seq::new(results.len(), |i: int| stable_key(results[i]))
}

/// The votes a key needs among `total` responses to meet `threshold`.
pub fn quorum(total: usize, threshold: u32) -> (needed: u128)
    ensures
        needed == quorum_needed(total as nat, threshold as nat),
{
    assert(total * threshold <= 0xffff_ffff_ffff_ffff * 0xffff_ffff) by (nonlinear_arith)
        requires
            total <= 0xffff_ffff_ffff_ffff,
            threshold <= 0xffff_ffff,
    ;
    (total as u128 * threshold as u128 + 9_999) / 10_000
}

/// The outcome of one consensus round.
pub struct ConsensusAttemptResult {
    success: bool,
    value: Option<JsonValue>,
    counts: StringMap<usize>,
    results: Vec<JsonValue>,
    most_common_key: Option<String>,
    key_to_value: StringMap<JsonValue>,
    threshold: u32,
    lead: usize,
}

impl ConsensusAttemptResult {
    /// The responses that were collected, in the order they were folded.
    pub closed spec fn responses(&self) -> Seq<JsonTerm> {
        items_view(self.results@)
    }

    /// The threshold the round was held to.
    pub closed spec fn threshold(&self) -> nat {
        self.threshold as nat
    }

    /// The distinct keys, each where it was first seen.
    pub closed spec fn keys(&self) -> Seq<Seq<char>> {
        self.counts.keys()
    }

    /// The votes per key, each at the position of its key.
    pub closed spec fn votes(&self) -> Seq<usize> {
        self.counts.values()
    }

    /// The value that stands for each key, at the position of its key.
    pub closed spec fn representatives(&self) -> Seq<JsonTerm> {
        items_view(self.key_to_value.values())
    }

    /// Whether the round reached its quorum.
    pub closed spec fn succeeded(&self) -> bool {
        self.success
    }

    /// The value the round settled on, if it reached its quorum.
    pub closed spec fn winner(&self) -> Option<JsonTerm> {
        match self.value {
            Some(v) => Some(v@),
            None => None,
        }
    }

    /// The key with the most votes, if any response was collected.
    pub closed spec fn leading_key(&self) -> Option<Seq<char>> {
        match self.most_common_key {
            Some(k) => Some(k@),
            None => None,
        }
    }

    /// The position of the leading key among the keys.
    pub open spec fn leader(&self) -> int {
        choose|i: int| is_leader(self.votes(), i)
    }

    /// The votes of the leading key; 0 where no response was collected.
    pub open spec fn leading_votes(&self) -> nat {
        if self.responses().len() == 0 {
            0
        } else {
            self.votes()[self.leader()] as nat
        }
    }

    /// `self` is the tally of `results` held to `threshold`.
    ///
    /// The keys are the distinct comparison keys of the responses in order
    /// of first appearance, each with the number of responses that have it
    /// and, standing for it, the last such response. The leading key is the
    /// first with the most votes. The round succeeded exactly when there is
    /// a response and the leading key has the votes that the threshold asks
    /// of that many responses; the winner is then the value that stands for
    /// the leading key.
    pub open spec fn is_tally_of(&self, results: Seq<JsonTerm>, threshold: nat) -> bool {
        let all = vote_keys(results);
        &&& self.responses() == results
        &&& self.threshold() == threshold
        &&& self.keys() == distinct_keys(all)
        &&& self.keys().no_duplicates()
        &&& self.votes().len() == self.keys().len()
        &&& self.representatives().len() == self.keys().len()
        &&& forall|j: int|
            0 <= j < self.keys().len() ==> (#[trigger] self.votes()[j]) == occurrences(
                all,
                self.keys()[j],
            )
        &&& forall|j: int|
            0 <= j < self.keys().len() ==> 0 <= last_index_of(all, self.keys()[j]) < all.len() && (
            #[trigger] self.representatives()[j]) == results[last_index_of(all, self.keys()[j])]
        &&& if results.len() == 0 {
            &&& self.leading_key().is_none()
            &&& !self.succeeded()
            &&& self.winner().is_none()
        } else {
            &&& is_leader(self.votes(), self.leader())
            &&& self.leading_key() == Some(self.keys()[self.leader()])
            &&& self.succeeded() == (self.leading_votes() >= quorum_needed(results.len(), threshold))
            &&& self.winner() == if self.succeeded() {
                Some(self.representatives()[self.leader()])
            } else {
                None
            }
        }
    }

    /// Every value of this type is the tally of its own responses.
    #[verifier::type_invariant]
    closed spec fn inv(&self) -> bool {
        &&& self.is_tally_of(self.responses(), self.threshold())
        &&& self.counts.wf()
        &&& self.key_to_value.wf()
        &&& self.key_to_value.keys() == self.counts.keys()
        &&& self.key_to_value.values().len() == self.counts.keys().len()
        &&& self.results@.len() > 0 ==> is_leader(self.counts.values(), self.lead as int)
    }
}

/// Counts the votes: groups `results` by comparison key and decides whether
/// the leading key meets `threshold`.
pub fn tally_votes(results: Vec<JsonValue>, threshold: u32) -> (attempt: ConsensusAttemptResult)
    ensures
        attempt.is_tally_of(items_view(results@), threshold as nat),
{
    let ghost terms = items_view(results@);
    let ghost all = vote_keys(terms);
    let mut counts: StringMap<usize> = StringMap::new();
    let mut key_to_value: StringMap<JsonValue> = StringMap::new();
    let mut i: usize = 0;
    proof {
        counts.lemma_shape();
        key_to_value.lemma_shape();
        assert(all.take(0) =~= Seq::<Seq<char>>::empty());
    }
    while i < results.len()
        invariant
            i <= results.len(),
            terms == items_view(results@),
            all == vote_keys(terms),
            counts.wf(),
            key_to_value.wf(),
            counts.keys() == distinct_keys(all.take(i as int)),
            key_to_value.keys() == counts.keys(),
            counts.values().len() == counts.keys().len(),
            key_to_value.values().len() == counts.keys().len(),
            forall|j: int|
                0 <= j < counts.keys().len() ==> (#[trigger] counts.values()[j]) == occurrences(
                    all.take(i as int),
                    counts.keys()[j],
                ),
            forall|j: int|
                0 <= j < counts.keys().len() ==> 0 <= #[trigger] last_index_of(
                    all.take(i as int),
                    counts.keys()[j],
                ) < i,
            forall|j: int|
                0 <= j < counts.keys().len() ==> (#[trigger] key_to_value.values()[j])@
                    == terms[last_index_of(all.take(i as int), counts.keys()[j])],
        decreases results.len() - i,
    {
        let key = stable_string(&results[i]);
        let ghost seen = all.take(i as int);
        let ghost next = all.take(i + 1);
        let ghost old_keys = counts.keys();
        let ghost old_votes = counts.values();
        let ghost old_values = key_to_value.values();
        proof {
            assert(terms[i as int] == results[i as int]@);
            assert(key@ == all[i as int]);
            assert(next.drop_last() =~= seen);
            assert(next.last() == key@);
            counts.lemma_shape();
            key_to_value.lemma_shape();
            lemma_absent_key(seen, key@);
        }
        let votes: usize = match counts.get(key.as_str()) {
            Some(c) => {
                proof {
                    let p = old_keys.index_of(key@);
                    assert(old_keys[p] == key@);
                    assert(old_votes[p] == occurrences(seen, key@));
                }
                *c + 1
            },
            None => 1,
        };
        let copy = results[i].clone();
        counts.insert(key.clone(), votes);
        key_to_value.insert(key, copy);
        proof {
            counts.lemma_shape();
            key_to_value.lemma_shape();
            let new_keys = counts.keys();
            assert forall|j: int| 0 <= j < new_keys.len() implies (#[trigger] counts.values()[j])
                == occurrences(next, new_keys[j]) by {
                if j < old_keys.len() {
                    assert(new_keys[j] == old_keys[j]);
                    assert(old_votes[j] == occurrences(seen, old_keys[j]));
                }
            }
            assert forall|j: int| 0 <= j < new_keys.len() implies 0 <= #[trigger] last_index_of(
                next,
                new_keys[j],
            ) < i + 1 by {
                if j < old_keys.len() {
                    assert(new_keys[j] == old_keys[j]);
                    assert(0 <= last_index_of(seen, old_keys[j]) < i);
                } else {
                    assert(new_keys[j] == key@);
                }
            }
            assert forall|j: int| 0 <= j < new_keys.len() implies (
            #[trigger] key_to_value.values()[j])@ == terms[last_index_of(next, new_keys[j])] by {
                if j < old_keys.len() {
                    assert(new_keys[j] == old_keys[j]);
                    assert(old_values[j]@ == terms[last_index_of(seen, old_keys[j])]);
                    if old_keys[j] == key@ {
                        assert(key_to_value.values()[j] == copy);
                    } else {
                        assert(key_to_value.values()[j] == old_values[j]);
                    }
                } else {
                    assert(new_keys[j] == key@);
                    assert(key_to_value.values()[j] == copy);
                }
            }
        }
        i += 1;
    }
    proof {
        assert(all.take(results.len() as int) =~= all);
        counts.lemma_shape();
        key_to_value.lemma_shape();
    }
    let total = results.len();
    if total == 0 {
        let attempt = ConsensusAttemptResult {
            success: false,
            value: None,
            counts,
            results,
            most_common_key: None,
            key_to_value,
            threshold,
            lead: 0,
        };
        return attempt;
    }
    proof {
        lemma_absent_key(all, all.last());
        assert(all.drop_last().push(all.last()) =~= all);
        assert(occurrences(all, all.last()) >= 1);
        assert(counts.keys().contains(all.last()));
    }
    let mut lead: usize = 0;
    let mut j: usize = 1;
    let n = counts.len();
    while j < n
        invariant
            n == counts.keys().len(),
            n == counts.values().len(),
            counts.wf(),
            0 <= lead < j <= n,
            forall|k: int| 0 <= k < j ==> counts.values()[k] <= counts.values()[lead as int],
            forall|k: int| 0 <= k < lead ==> counts.values()[k] < counts.values()[lead as int],
        decreases n - j,
    {
        if *counts.value_at(j) > *counts.value_at(lead) {
            lead = j;
        }
        j += 1;
    }
    assert(is_leader(counts.values(), lead as int));
    let needed = quorum(total, threshold);
    let lead_votes: usize = *counts.value_at(lead);
    let success = lead_votes as u128 >= needed;
    let value = if success {
        Some(key_to_value.value_at(lead).clone())
    } else {
        None
    };
    let most_common_key = Some(counts.key_at(lead).clone());
    proof {
        let votes = counts.values();
        let chosen = choose|i: int| is_leader(votes, i);
        lemma_leader_unique(votes, chosen, lead as int);
        let reps = items_view(key_to_value.values());
        assert(reps.len() == counts.keys().len());
        assert forall|j: int| 0 <= j < counts.keys().len() implies 0 <= last_index_of(
            all,
            counts.keys()[j],
        ) < all.len() && (#[trigger] reps[j]) == terms[last_index_of(all, counts.keys()[j])] by {
            assert(0 <= last_index_of(all, counts.keys()[j]) < all.len());
            assert(key_to_value.values()[j]@ == terms[last_index_of(all, counts.keys()[j])]);
        }
        assert(terms.len() == total);
    }
    let attempt = ConsensusAttemptResult {
        success,
        value,
        counts,
        results,
        most_common_key,
        key_to_value,
        threshold,
        lead,
    };
    proof {
        lemma_leader_unique(attempt.votes(), attempt.leader(), lead as int);
    }
    attempt
}

/// The threshold after `step` steps of relaxation; it may fall below zero.
pub open spec fn relaxed_threshold(threshold: nat, step: nat) -> int {
    threshold - step * RELAXATION_STEP
}

/// Relaxation step number `step` accepts the leading key: the lowered
/// threshold is still at least `min_threshold`, it asks for at least one
/// vote, and the leading key has the votes it asks for.
pub open spec fn step_accepts(
    total: nat,
    leading: nat,
    threshold: nat,
    min_threshold: nat,
    step: nat,
) -> bool {
    let lowered = relaxed_threshold(threshold, step);
    &&& step >= 1
    &&& lowered >= min_threshold
    &&& quorum_needed(total, lowered as nat) > 0
    &&& leading >= quorum_needed(total, lowered as nat)
}

/// Some step of the relaxation accepts the leading key.
pub open spec fn relaxation_accepts(
    total: nat,
    leading: nat,
    threshold: nat,
    min_threshold: nat,
) -> bool {
    exists|step: nat| step_accepts(total, leading, threshold, min_threshold, step)
}

/// A lower threshold never asks for more votes.
pub proof fn lemma_quorum_monotonic(total: nat, low: nat, high: nat)
    requires
        low <= high,
    ensures
        quorum_needed(total, low) <= quorum_needed(total, high),
{
    assert(total * low <= total * high) by (nonlinear_arith)
        requires
            low <= high,
    ;
    assert((total * low + 9_999) / 10_000 <= (total * high + 9_999) / 10_000) by (nonlinear_arith)
        requires
            total * low <= total * high,
    ;
}

/// The HTTP status with which an endpoint says that it is rate limiting.
pub const TOO_MANY_REQUESTS: u16 = 429;

/// What became of the request to one endpoint of a round.
#[derive(Debug)]
pub enum RequestOutcome {
    /// The request did not complete within the timeout.
    TimedOut,
    /// The transport failed before a status arrived.
    Failed { description: String },
    /// A status arrived. `body` says what the body parsed to where the
    /// status was a success: the `result` member of the response if it has
    /// one, or why the body did not parse.
    Answered { status: u16, body: Result<Option<JsonValue>, String> },
}

/// Why a request of a round counts as failed.
#[derive(Debug, PartialEq, Eq)]
pub struct RequestFailure {
    /// What went wrong, for the log.
    pub error: String,
    /// Whether the endpoint is rate limiting.
    pub rate_limited: bool,
}

/// A status is a success: it lies in 200..=299.
pub open spec fn is_success_status(status: u16) -> bool {
    200 <= status <= 299
}

/// The result that a request brought, if it brought one: the status was a
/// success and the body parsed to a response with a `result` member.
pub open spec fn request_result(outcome: RequestOutcome) -> Option<JsonValue> {
    match outcome {
        RequestOutcome::Answered { status, body: Ok(Some(result)) } => if is_success_status(
            status,
        ) {
            Some(result)
        } else {
            None
        },
        _ => None,
    }
}

/// What is said of a request that brought no result.
pub open spec fn failure_text(outcome: RequestOutcome) -> Seq<char> {
    match outcome {
        RequestOutcome::TimedOut => "Timeout"@,
        RequestOutcome::Failed { description } => "Request error: "@ + description@,
        RequestOutcome::Answered { status, body } => if !is_success_status(status) {
            "HTTP error "@ + decimal(status as nat)
        } else {
            match body {
                Err(description) => "JSON parse error: "@ + description@,
                _ => "No result in response"@,
            }
        },
    }
}

/// A request that brought no result failed for rate limiting: the endpoint
/// answered with status 429, or what is said of the failure mentions 429.
pub open spec fn is_rate_limiting(outcome: RequestOutcome) -> bool {
    ||| outcome matches RequestOutcome::Answered { status, .. } && status == TOO_MANY_REQUESTS
    ||| occurs_in("429".spec_bytes(), encode_utf8(failure_text(outcome)))
}

impl RequestOutcome {
    /// Whether the request brought a result.
    pub fn is_response(&self) -> (response: bool)
        ensures
            response == request_result(*self).is_some(),
    {
        match self {
            RequestOutcome::Answered { status, body: Ok(Some(_)) } => 200 <= *status
                && *status <= 299,
            _ => false,
        }
    }
}

/// Judges the request to one endpoint of a round. Only a success status
/// with a body that parses and has a result is a vote; anything else is a
/// failure, and a status of 429 a failure for rate limiting.
pub fn judge_request(outcome: RequestOutcome) -> (verdict: Result<JsonValue, RequestFailure>)
    ensures
        match verdict {
            Ok(value) => request_result(outcome) == Some(value),
            Err(failure) => {
                &&& request_result(outcome).is_none()
                &&& failure.error@ == failure_text(outcome)
                &&& failure.rate_limited == is_rate_limiting(outcome)
            },
        },
{
    let ghost said = failure_text(outcome);
    let mut answered_429 = false;
    let error: String = match outcome {
        RequestOutcome::TimedOut => "Timeout".to_owned(),
        RequestOutcome::Failed { description } => {
            let mut text = "Request error: ".to_owned();
            text.append(description.as_str());
            text
        },
        RequestOutcome::Answered { status, body } => {
            if status < 200 || status > 299 {
                answered_429 = status == TOO_MANY_REQUESTS;
                let mut text = "HTTP error ".to_owned();
                let code = format_decimal(status as u64);
                text.append(code.as_str());
                text
            } else {
                match body {
                    Ok(Some(result)) => {
                        return Ok(result);
                    },
                    Ok(None) => "No result in response".to_owned(),
                    Err(description) => {
                        let mut text = "JSON parse error: ".to_owned();
                        text.append(description.as_str());
                        text
                    },
                }
            }
        },
    };
    assert(error@ == said);
    let rate_limited = answered_429 || is_rate_limited(error.as_str());
    Err(RequestFailure { error, rate_limited })
}

/// Whether a failure text points at rate limiting: it mentions status 429.
pub fn is_rate_limited(error: &str) -> (limited: bool)
    ensures
        limited == occurs_in("429".spec_bytes(), error.spec_bytes()),
{
    contains(error, "429")
}

impl ConsensusAttemptResult {
    /// Whether the round reached its quorum.
    pub fn success(&self) -> (success: bool)
        ensures
            success == self.succeeded(),
            self.is_tally_of(self.responses(), self.threshold()),
    {
        proof {
            use_type_invariant(self);
        }
        self.success
    }

    /// The value the round settled on, if it reached its quorum.
    pub fn value(&self) -> (value: Option<&JsonValue>)
        ensures
            match value {
                Some(v) => self.winner() == Some(v@),
                None => self.winner().is_none(),
            },
    {
        match &self.value {
            Some(v) => Some(v),
            None => None,
        }
    }

    /// The responses that were collected.
    pub fn results(&self) -> (results: &Vec<JsonValue>)
        ensures
            items_view(results@) == self.responses(),
    {
        &self.results
    }

    /// The votes per key, in order of first appearance.
    pub fn counts(&self) -> (counts: &StringMap<usize>)
        ensures
            counts.keys() == self.keys(),
            counts.values() == self.votes(),
    {
        &self.counts
    }

    /// The value that stands for each key.
    pub fn key_to_value(&self) -> (values: &StringMap<JsonValue>)
        ensures
            values.keys() == self.keys(),
            items_view(values.values()) == self.representatives(),
    {
        proof {
            use_type_invariant(self);
        }
        &self.key_to_value
    }

    /// The key with the most votes, if any response was collected.
    pub fn most_common_key(&self) -> (key: Option<&String>)
        ensures
            match key {
                Some(k) => self.leading_key() == Some(k@),
                None => self.leading_key().is_none(),
            },
    {
        match &self.most_common_key {
            Some(k) => Some(k),
            None => None,
        }
    }

}

/// Decides a plain consensus round.
///
/// A round that reached its quorum yields its winner. Any other round fails
/// with `ConsensusFailure`, naming the leading key, or `n/a` where no
/// response was collected.
pub fn decide_consensus(attempt: &ConsensusAttemptResult) -> (outcome: Result<JsonValue, RpcHandlerError>)
    ensures
        match outcome {
            Ok(value) => attempt.succeeded() && attempt.winner() == Some(value@),
            Err(RpcHandlerError::ConsensusFailure { most_common }) => !attempt.succeeded()
                && most_common@ == match attempt.leading_key() {
                Some(key) => key,
                None => "n/a"@,
            },
            Err(_) => false,
        },
{
    proof {
        use_type_invariant(attempt);
    }
    if attempt.success {
        match &attempt.value {
            Some(value) => {
                return Ok(value.clone());
            },
            None => {},
        }
    }
    let most_common = match &attempt.most_common_key {
        Some(key) => key.clone(),
        None => "n/a".to_owned(),
    };
    Err(RpcHandlerError::ConsensusFailure { most_common })
}

/// Decides a round with relaxation.
///
/// A round that reached its quorum yields its winner. A round without any
/// response fails for good. Otherwise the threshold of the round is lowered
/// by 5% at a time, down to `min_threshold`, and the votes already counted
/// are held against each lowered threshold in turn; the first that the
/// leading key meets yields the value that stands for it. Nothing is asked
/// of any provider again.
pub fn decide_bft_consensus(attempt: &ConsensusAttemptResult, min_threshold: u32) -> (outcome: Result<
    JsonValue,
    RpcHandlerError,
>)
    ensures
        match outcome {
            Ok(value) => if attempt.succeeded() {
                attempt.winner() == Some(value@)
            } else {
                &&& attempt.responses().len() > 0
                &&& relaxation_accepts(
                    attempt.responses().len(),
                    attempt.leading_votes(),
                    attempt.threshold(),
                    min_threshold as nat,
                )
                &&& value@ == attempt.representatives()[attempt.leader()]
            },
            Err(RpcHandlerError::ConsensusFailure { most_common }) => {
                &&& !attempt.succeeded()
                &&& if attempt.responses().len() == 0 {
                    most_common@ == "No successful RPC responses for BFT consensus"@
                } else {
                    &&& most_common@
                        == "Could not reach BFT consensus down to minimum threshold"@
                    &&& !relaxation_accepts(
                        attempt.responses().len(),
                        attempt.leading_votes(),
                        attempt.threshold(),
                        min_threshold as nat,
                    )
                }
            },
            Err(_) => false,
        },
{
    proof {
        use_type_invariant(attempt);
        attempt.counts.lemma_shape();
        attempt.key_to_value.lemma_shape();
    }
    if attempt.success {
        match &attempt.value {
            Some(value) => {
                return Ok(value.clone());
            },
            None => {},
        }
    }
    let total = attempt.results.len();
    if total == 0 {
        return Err(
            RpcHandlerError::ConsensusFailure {
                most_common: "No successful RPC responses for BFT consensus".to_owned(),
            },
        );
    }
    let ghost leading = attempt.leading_votes();
    let ghost threshold = attempt.threshold();
    proof {
        lemma_leader_unique(attempt.votes(), attempt.leader(), attempt.lead as int);
    }
    let votes: usize = *attempt.counts.value_at(attempt.lead);
    let value: &JsonValue = attempt.key_to_value.value_at(attempt.lead);
    let mut curr: u32 = attempt.threshold;
    let ghost mut step: nat = 0;
    loop
        invariant
            total == attempt.responses().len(),
            total > 0,
            leading == attempt.leading_votes(),
            threshold == attempt.threshold(),
            votes == leading,
            value@ == attempt.representatives()[attempt.leader()],
            !attempt.succeeded(),
            curr == relaxed_threshold(threshold, step),
            forall|k: nat|
                k <= step ==> !step_accepts(total as nat, leading, threshold, min_threshold as nat, k),
        ensures
            forall|k: nat|
                !step_accepts(total as nat, leading, threshold, min_threshold as nat, k),
        decreases curr,
    {
        if curr < RELAXATION_STEP || curr - RELAXATION_STEP < min_threshold {
            proof {
                assert forall|k: nat| !step_accepts(
                    total as nat,
                    leading,
                    threshold,
                    min_threshold as nat,
                    k,
                ) by {
                    if k > step {
                        assert(relaxed_threshold(threshold, k) <= curr - RELAXATION_STEP)
                            by (nonlinear_arith)
                            requires
                                k >= step + 1,
                                curr == threshold - step * RELAXATION_STEP,
                                relaxed_threshold(threshold, k) == threshold - k * RELAXATION_STEP,
                        ;
                    }
                }
            }
            break ;
        }
        curr = curr - RELAXATION_STEP;
        proof {
            step = step + 1;
            assert(curr == relaxed_threshold(threshold, step)) by (nonlinear_arith)
                requires
                    curr + RELAXATION_STEP == threshold - (step - 1) * RELAXATION_STEP,
                    relaxed_threshold(threshold, step) == threshold - step * RELAXATION_STEP,
            ;
        }
        let needed = quorum(total, curr);
        if needed == 0 {
            proof {
                assert forall|k: nat| !step_accepts(
                    total as nat,
                    leading,
                    threshold,
                    min_threshold as nat,
                    k,
                ) by {
                    if k >= step {
                        let lowered = relaxed_threshold(threshold, k);
                        assert(lowered <= curr) by (nonlinear_arith)
                            requires
                                k >= step,
                                curr == threshold - step * RELAXATION_STEP,
                                lowered == threshold - k * RELAXATION_STEP,
                        ;
                        if lowered >= 0 {
                            lemma_quorum_monotonic(total as nat, lowered as nat, curr as nat);
                        }
                    }
                }
            }
            break ;
        }
        if votes as u128 >= needed {
            assert(step_accepts(total as nat, leading, threshold, min_threshold as nat, step));
            return Ok(value.clone());
        }
    }
    Err(
        RpcHandlerError::ConsensusFailure {
            most_common: "Could not reach BFT consensus down to minimum threshold".to_owned(),
        },
    )
}

/// One response, kept with its comparison key.
struct RoundVote {
    key: String,
    value: JsonValue,
}

/// The keys of the votes, in order.
spec fn round_keys(votes: Seq<RoundVote>) -> Seq<Seq<char>> {
    Seq::new(votes.len(), |i: int| votes[i].key@)
}

/// The responses of the votes, in order.
spec fn round_terms(votes: Seq<RoundVote>) -> Seq<JsonTerm> {
    Seq::new(votes.len(), |i: int| votes[i].value@)
}

/// A consensus round in progress.
///
/// The caller asks for the next wave of endpoints, sends the request to
/// each of them, reports every outcome, and asks again, until no wave is
/// left; then it finishes the round.
pub struct ConsensusRound {
    urls: Vec<String>,
    next: usize,
    concurrency: usize,
    timeout_ms: u64,
    cooldown_ms: u64,
    threshold: u32,
    allow_early_abort: bool,
    aborted: bool,
    votes: Vec<RoundVote>,
}

impl ConsensusRound {
    /// The endpoints of the round, in the order they are asked.
    pub closed spec fn candidates(&self) -> Seq<Seq<char>> {
        texts(self.urls@)
    }

    /// How many endpoints have been handed out in waves.
    pub closed spec fn dispatched(&self) -> nat {
        self.next as nat
    }

    /// How many endpoints a wave holds at most.
    pub closed spec fn wave_size(&self) -> nat {
        self.concurrency as nat
    }

    /// The threshold of the round.
    pub closed spec fn threshold(&self) -> nat {
        self.threshold as nat
    }

    /// Whether the round stops early once a key has its quorum.
    pub closed spec fn early_abort(&self) -> bool {
        self.allow_early_abort
    }

    /// Whether the round has stopped early.
    pub closed spec fn aborted(&self) -> bool {
        self.aborted
    }

    /// The base cooldown of the round, in milliseconds.
    pub closed spec fn cooldown(&self) -> u64 {
        self.cooldown_ms
    }

    /// The timeout of each request, in milliseconds.
    pub closed spec fn timeout(&self) -> u64 {
        self.timeout_ms
    }

    /// The responses folded so far, in order.
    pub closed spec fn responses(&self) -> Seq<JsonTerm> {
        round_terms(self.votes@)
    }

    /// How many endpoints the next wave holds: none once the round has
    /// stopped early, else as many as a wave may hold, or as are left.
    pub open spec fn next_wave_len(&self) -> nat {
        if self.aborted() {
            0
        } else if self.dispatched() + self.wave_size() <= self.candidates().len() {
            self.wave_size()
        } else {
            (self.candidates().len() - self.dispatched()) as nat
        }
    }

    /// `self` has the endpoints and limits of `before`.
    pub open spec fn same_setup(&self, before: ConsensusRound) -> bool {
        &&& self.candidates() == before.candidates()
        &&& self.wave_size() == before.wave_size()
        &&& self.threshold() == before.threshold()
        &&& self.early_abort() == before.early_abort()
        &&& self.cooldown() == before.cooldown()
        &&& self.timeout() == before.timeout()
    }

    /// `self` is `before` in every respect.
    pub open spec fn is_unchanged(&self, before: ConsensusRound) -> bool {
        &&& self.same_setup(before)
        &&& self.dispatched() == before.dispatched()
        &&& self.responses() == before.responses()
        &&& self.aborted() == before.aborted()
    }

    /// `self` is `before` with the response `value` folded in: the response
    /// is the last of the responses, and the round has stopped early if it
    /// had already, or if it may stop early and the key of `value` now has
    /// the votes the threshold asks of the responses so far.
    pub open spec fn is_after_success(&self, before: ConsensusRound, value: JsonTerm) -> bool {
        &&& self.same_setup(before)
        &&& self.dispatched() == before.dispatched()
        &&& self.responses() == before.responses().push(value)
        &&& self.aborted() == (before.aborted() || (before.early_abort() && occurrences(
            vote_keys(self.responses()),
            stable_key(value),
        ) >= quorum_needed(self.responses().len(), before.threshold())))
    }

    #[verifier::type_invariant]
    closed spec fn inv(&self) -> bool {
        &&& self.next <= self.urls@.len()
        &&& self.concurrency >= 1
        &&& round_keys(self.votes@) == vote_keys(round_terms(self.votes@))
    }

    /// The timeout of each request, in milliseconds.
    pub fn timeout_ms(&self) -> (timeout_ms: u64)
        ensures
            timeout_ms == self.timeout(),
    {
        self.timeout_ms
    }

    /// The base cooldown of the round, in milliseconds.
    pub fn cooldown_ms(&self) -> (cooldown_ms: u64)
        ensures
            cooldown_ms == self.cooldown(),
    {
        self.cooldown_ms
    }

    /// Whether the round is over: it has stopped early, or every endpoint
    /// has been handed out.
    pub fn is_finished(&self) -> (finished: bool)
        ensures
            finished == (self.next_wave_len() == 0),
    {
        proof {
            use_type_invariant(self);
        }
        self.aborted || self.next >= self.urls.len()
    }

    /// Hands out the next wave: the next endpoints in order, as many as a
    /// wave may hold or as are left. No wave is handed out once the round
    /// has stopped early.
    pub fn next_wave(&mut self) -> (wave: Vec<String>)
        ensures
            texts(wave@) == old(self).candidates().subrange(
                old(self).dispatched() as int,
                (old(self).dispatched() + old(self).next_wave_len()) as int,
            ),
            final(self).dispatched() == old(self).dispatched() + old(self).next_wave_len(),
            final(self).candidates() == old(self).candidates(),
            final(self).responses() == old(self).responses(),
            final(self).aborted() == old(self).aborted(),
            final(self).wave_size() == old(self).wave_size(),
            final(self).threshold() == old(self).threshold(),
            final(self).early_abort() == old(self).early_abort(),
            final(self).cooldown() == old(self).cooldown(),
            final(self).timeout() == old(self).timeout(),
    {
        proof {
            use_type_invariant(&*self);
        }
        let mut wave: Vec<String> = Vec::new();
        let start = self.next;
        if self.aborted {
            assert(texts(wave@) =~= self.candidates().subrange(start as int, start as int));
            return wave;
        }
        let n = self.urls.len();
        let end: usize = if n - start >= self.concurrency {
            start + self.concurrency
        } else {
            n
        };
        let mut i: usize = start;
        while i < end
            invariant
                start <= i <= end <= n,
                n == self.urls@.len(),
                texts(wave@) == texts(self.urls@).subrange(start as int, i as int),
            decreases end - i,
        {
            let ghost before = texts(wave@);
            wave.push(self.urls[i].clone());
            assert(texts(wave@) =~= before.push(self.urls[i as int]@));
            assert(texts(wave@) =~= texts(self.urls@).subrange(start as int, i + 1));
            i += 1;
        }
        self.next = end;
        wave
    }

    /// Folds one response into the round.
    ///
    /// The response is counted under its comparison key. Where the round
    /// may stop early and that key now has the votes the threshold asks of
    /// the responses so far, the round stops: no further wave is handed
    /// out. The outcomes of the wave in flight are still to be reported.
    pub fn record_success(&mut self, value: JsonValue)
        ensures
            final(self).is_after_success(*old(self), value@),
    {
        proof {
            use_type_invariant(&*self);
        }
        let key = stable_string(&value);
        let mut votes: Vec<RoundVote> = Vec::new();
        assert(round_keys(votes@) =~= vote_keys(round_terms(votes@)));
        core::mem::swap(&mut self.votes, &mut votes);
        let ghost old_keys = round_keys(votes@);
        let ghost old_terms = round_terms(votes@);
        let mut count: usize = 0;
        let mut i: usize = 0;
        while i < votes.len()
            invariant
                i <= votes.len(),
                old_keys == round_keys(votes@),
                count == occurrences(old_keys.take(i as int), key@),
                count <= i,
            decreases votes.len() - i,
        {
            proof {
                assert(old_keys.take(i + 1).drop_last() =~= old_keys.take(i as int));
                assert(old_keys.take(i + 1).last() == votes[i as int].key@);
            }
            if crate::text::same_text(votes[i].key.as_str(), key.as_str()) {
                count += 1;
            }
            i += 1;
        }
        proof {
            assert(old_keys.take(votes.len() as int) =~= old_keys);
        }
        votes.push(RoundVote { key, value });
        let total = votes.len();
        proof {
            let new_keys = round_keys(votes@);
            let new_terms = round_terms(votes@);
            assert(new_keys =~= old_keys.push(key@));
            assert(new_terms =~= old_terms.push(value@));
            assert(new_keys =~= vote_keys(new_terms));
            assert(new_keys.drop_last() =~= old_keys);
        }
        let reached = self.allow_early_abort && count as u128 + 1 >= quorum(total, self.threshold);
        self.votes = votes;
        if reached {
            self.aborted = true;
        }
    }

    /// Ends the round and counts the votes.
    pub fn finish(self) -> (attempt: ConsensusAttemptResult)
        ensures
            attempt.is_tally_of(self.responses(), self.threshold()),
    {
        proof {
            use_type_invariant(&self);
        }
        let mut results: Vec<JsonValue> = Vec::new();
        let mut i: usize = 0;
        while i < self.votes.len()
            invariant
                i <= self.votes.len(),
                items_view(results@) == round_terms(self.votes@).take(i as int),
            decreases self.votes.len() - i,
        {
            let ghost before = items_view(results@);
            let copy = self.votes[i].value.clone();
            results.push(copy);
            assert(items_view(results@) =~= before.push(copy@));
            assert(items_view(results@) =~= round_terms(self.votes@).take(i + 1));
            i += 1;
        }
        assert(round_terms(self.votes@).take(self.votes.len() as int) =~= round_terms(
            self.votes@,
        ));
        tally_votes(results, self.threshold)
    }
}

/// A URL is that of a WebSocket endpoint: it begins with `ws://` or with
/// `wss://`.
pub open spec fn is_websocket(url: Seq<char>) -> bool {
    "ws://".spec_bytes().is_prefix_of(encode_utf8(url)) || "wss://".spec_bytes().is_prefix_of(
        encode_utf8(url),
    )
}

/// Whether `url` is the URL of a WebSocket endpoint.
pub fn is_websocket_url(url: &str) -> (websocket: bool)
    ensures
        websocket == is_websocket(url@),
{
    starts_with(url, "ws://") || starts_with(url, "wss://")
}

/// A URL takes part in a round at instant `now_ms`: it is no WebSocket URL
/// and it is not cooling down.
pub open spec fn is_eligible(url: Seq<char>, cooldowns: CooldownTracker, now_ms: u64) -> bool {
    !is_websocket(url) && cooldowns.available(url, now_ms)
}

/// The URLs that take part in a round at instant `now_ms`.
pub open spec fn eligible(cooldowns: CooldownTracker, now_ms: u64) -> spec_fn(Seq<char>) -> bool {
    |url: Seq<char>| is_eligible(url, cooldowns, now_ms)
}

/// The consensus engine of a handler: the handler's endpoints and the
/// cooldowns their failures have earned them.
pub struct RpcCalls {
    pub handler: RpcHandler,
    pub cooldowns: CooldownTracker,
}

impl RpcCalls {
    /// The handler whose endpoints are asked.
    pub open spec fn handler_state(&self) -> RpcHandler {
        self.handler
    }

    /// The cooldowns in force.
    pub open spec fn cooldown_state(&self) -> CooldownTracker {
        self.cooldowns
    }

    /// The endpoints that a round started at instant `now_ms` asks.
    pub open spec fn pool(&self, now_ms: u64) -> Seq<Seq<char>> {
        rpc_urls(self.handler_state().rpcs@).filter(eligible(self.cooldown_state(), now_ms))
    }

    /// An engine for `handler` in which no endpoint is cooling down.
    pub fn new(handler: RpcHandler) -> (calls: Self)
        ensures
            calls.handler_state() == handler,
            forall|url: Seq<char>| calls.cooldown_state().info(url).is_none(),
    {
        RpcCalls { handler, cooldowns: CooldownTracker::new() }
    }

    /// The handler whose endpoints are asked.
    pub fn handler(&self) -> (handler: &RpcHandler)
        ensures
            *handler == self.handler_state(),
    {
        &self.handler
    }

    /// The cooldowns in force.
    pub fn cooldowns(&self) -> (cooldowns: &CooldownTracker)
        ensures
            *cooldowns == self.cooldown_state(),
    {
        &self.cooldowns
    }

    /// Plans a single call through the handler's provider, with its
    /// retries.
    pub fn try_rpc_call(&self) -> (session: Result<RetrySession, RpcHandlerError>)
        ensures
            self.handler.plans_request(session),
    {
        self.handler.try_proxy_request()
    }

    /// Records one more failure of `url` at instant `now_ms`, as
    /// [`CooldownTracker::apply_cooldown`] does.
    pub fn apply_cooldown(&mut self, url: &str, base_ms: u64, is_rate_limit: bool, now_ms: u64)
        requires
            now_ms + MAX_COOLDOWN_MS <= u64::MAX,
            old(self).cooldowns.strikes_of(url@) < u32::MAX,
        ensures
            final(self).handler == old(self).handler,
            final(self).cooldowns.is_after_failure(
                old(self).cooldowns,
                url@,
                base_ms,
                is_rate_limit,
                now_ms,
            ),
            old(self).cooldowns.until_of(url@) <= now_ms + MAX_COOLDOWN_MS ==> final(self).cooldowns.until_of(url@) <= now_ms + MAX_COOLDOWN_MS,
    {
        self.cooldowns.apply_cooldown(url, base_ms, is_rate_limit, now_ms);
    }

    /// Records the failure of one request of a round: the endpoint is set
    /// aside under the base cooldown of the round, for longer if it is rate
    /// limiting. A failure never ends the round.
    pub fn record_failure(
        &mut self,
        round: &ConsensusRound,
        url: &str,
        failure: &RequestFailure,
        now_ms: u64,
    )
        requires
            now_ms + MAX_COOLDOWN_MS <= u64::MAX,
            old(self).cooldowns.strikes_of(url@) < u32::MAX,
        ensures
            final(self).handler == old(self).handler,
            final(self).cooldowns.is_after_failure(
                old(self).cooldowns,
                url@,
                round.cooldown(),
                failure.rate_limited,
                now_ms,
            ),
            old(self).cooldowns.until_of(url@) <= now_ms + MAX_COOLDOWN_MS ==> final(self).cooldowns.until_of(url@) <= now_ms + MAX_COOLDOWN_MS,
    {
        self.cooldowns.apply_cooldown(url, round.cooldown_ms(), failure.rate_limited, now_ms);
    }

    /// Folds the outcome of the request to `url` into a round.
    ///
    /// A request that brought a result is a vote, see
    /// [`ConsensusRound::record_success`], and leaves the cooldowns alone. Any
    /// other sets `url` aside under the base cooldown of the round, with the
    /// factor for rate limiting where the endpoint answered with status 429
    /// or the failure mentions it, and leaves the round as it is.
    pub fn fold_outcome(
        &mut self,
        round: &mut ConsensusRound,
        url: &str,
        outcome: RequestOutcome,
        now_ms: u64,
    )
        requires
            request_result(outcome).is_none() ==> now_ms + MAX_COOLDOWN_MS <= u64::MAX && old(self).cooldowns.strikes_of(url@) < u32::MAX,
        ensures
            final(self).handler == old(self).handler,
            match request_result(outcome) {
                Some(value) => {
                    &&& final(round).is_after_success(*old(round), value@)
                    &&& final(self).cooldowns == old(self).cooldowns
                },
                None => {
                    &&& final(round).is_unchanged(*old(round))
                    &&& final(self).cooldowns.is_after_failure(
                        old(self).cooldowns,
                        url@,
                        old(round).cooldown(),
                        is_rate_limiting(outcome),
                        now_ms,
                    )
                    &&& old(self).cooldowns.until_of(url@) <= now_ms + MAX_COOLDOWN_MS ==> final(self).cooldowns.until_of(url@) <= now_ms + MAX_COOLDOWN_MS
                },
            },
    {
        match judge_request(outcome) {
            Ok(value) => {
                round.record_success(value);
            },
            Err(failure) => {
                self.record_failure(round, url, &failure, now_ms);
            },
        }
    }

    /// The endpoints that a round started at instant `now_ms` asks, in the
    /// order the handler holds them in.
    pub fn eligible_urls(&self, now_ms: u64) -> (urls: Vec<String>)
        ensures
            texts(urls@) == self.pool(now_ms),
    {
        let rpcs = &self.handler.rpcs;
        let ghost all = rpc_urls(rpcs@);
        let ghost wanted = eligible(self.cooldowns, now_ms);
        let mut urls: Vec<String> = Vec::new();
        let mut i: usize = 0;
        assert(texts(urls@) =~= all.take(0).filter(wanted)) by {
            reveal(Seq::filter);
        }
        while i < rpcs.len()
            invariant
                i <= rpcs.len(),
                all == rpc_urls(rpcs@),
                wanted == eligible(self.cooldowns, now_ms),
                texts(urls@) == all.take(i as int).filter(wanted),
            decreases rpcs.len() - i,
        {
            let url = rpcs[i].url.as_str();
            let ghost before = texts(urls@);
            proof {
                reveal(Seq::filter);
                assert(all.take(i + 1).drop_last() =~= all.take(i as int));
                assert(all.take(i + 1).last() == rpcs[i as int].url@);
            }
            if !is_websocket_url(url) && self.cooldowns.is_available(url, now_ms) {
                urls.push(rpcs[i].url.clone());
                assert(texts(urls@) =~= before.push(rpcs[i as int].url@));
            }
            i += 1;
        }
        assert(all.take(rpcs.len() as int) =~= all);
        urls
    }

    /// Starts a consensus round at instant `now_ms`.
    ///
    /// The round asks every endpoint of the handler that is no WebSocket
    /// endpoint and is not cooling down, in a random order. With no such
    /// endpoint the round fails with `NoAvailableRpcs`; with one only it
    /// fails with `ConsensusFailure`, since agreement takes two. Both hold
    /// whatever the options are. A round that has endpoints to ask needs
    /// room for at least one request in flight.
    pub fn consensus_attempt(
        &self,
        now_ms: u64,
        quorum_threshold: u32,
        options: &ConsensusOptions,
        allow_early_abort: bool,
    ) -> (round: Result<ConsensusRound, RpcHandlerError>)
        requires
            options.concurrency == Some(0usize) ==> self.pool(now_ms).len() < 2,
        ensures
            match round {
                Ok(r) => {
                    &&& self.pool(now_ms).len() >= 2
                    &&& r.candidates().to_multiset() == self.pool(now_ms).to_multiset()
                    &&& r.dispatched() == 0
                    &&& r.responses().len() == 0
                    &&& !r.aborted()
                    &&& r.threshold() == quorum_threshold
                    &&& r.early_abort() == allow_early_abort
                    &&& r.wave_size() == options.concurrency.unwrap_or(4)
                    &&& r.timeout() == options.timeout_ms.unwrap_or(8000)
                    &&& r.cooldown() == options.cooldown_ms.unwrap_or(30000)
                },
                Err(RpcHandlerError::NoAvailableRpcs { network_id }) => self.pool(now_ms).len()
                    == 0 && network_id == self.handler_state().network_id,
                Err(RpcHandlerError::ConsensusFailure { most_common }) => self.pool(now_ms).len()
                    == 1 && most_common@
                    == "Only one RPC available, could not reach consensus"@,
                Err(_) => false,
            },
    {
        let timeout_ms = match options.timeout_ms {
            Some(t) => t,
            None => 8000,
        };
        let concurrency = match options.concurrency {
            Some(c) => c,
            None => 4,
        };
        let cooldown_ms = match options.cooldown_ms {
            Some(c) => c,
            None => 30000,
        };
        let mut urls = self.eligible_urls(now_ms);
        if urls.len() == 0 {
            return Err(RpcHandlerError::NoAvailableRpcs { network_id: self.handler.network_id });
        }
        if urls.len() == 1 {
            return Err(
                RpcHandlerError::ConsensusFailure {
                    most_common: "Only one RPC available, could not reach consensus".to_owned(),
                },
            );
        }
        shuffle_strings(&mut urls);
        let votes: Vec<RoundVote> = Vec::new();
        assert(round_keys(votes@) =~= vote_keys(round_terms(votes@)));
        Ok(
            ConsensusRound {
                urls,
                next: 0,
                concurrency,
                timeout_ms,
                cooldown_ms,
                threshold: quorum_threshold,
                allow_early_abort,
                aborted: false,
                votes,
            },
        )
    }

    /// Decides a plain consensus round, see [`decide_consensus`].
    pub fn consensus(&self, attempt: &ConsensusAttemptResult) -> (outcome: Result<
        JsonValue,
        RpcHandlerError,
    >)
        ensures
            match outcome {
                Ok(value) => attempt.succeeded() && attempt.winner() == Some(value@),
                Err(RpcHandlerError::ConsensusFailure { most_common }) => !attempt.succeeded()
                    && most_common@ == match attempt.leading_key() {
                    Some(key) => key,
                    None => "n/a"@,
                },
                Err(_) => false,
            },
    {
        decide_consensus(attempt)
    }

    /// Decides a round with relaxation, see [`decide_bft_consensus`].
    pub fn bft_consensus(&self, attempt: &ConsensusAttemptResult, min_threshold: u32) -> (outcome:
        Result<JsonValue, RpcHandlerError>)
        ensures
            match outcome {
                Ok(value) => if attempt.succeeded() {
                    attempt.winner() == Some(value@)
                } else {
                    &&& attempt.responses().len() > 0
                    &&& relaxation_accepts(
                        attempt.responses().len(),
                        attempt.leading_votes(),
                        attempt.threshold(),
                        min_threshold as nat,
                    )
                    &&& value@ == attempt.representatives()[attempt.leader()]
                },
                Err(RpcHandlerError::ConsensusFailure { most_common }) => {
                    &&& !attempt.succeeded()
                    &&& if attempt.responses().len() == 0 {
                        most_common@ == "No successful RPC responses for BFT consensus"@
                    } else {
                        &&& most_common@
                            == "Could not reach BFT consensus down to minimum threshold"@
                        &&& !relaxation_accepts(
                            attempt.responses().len(),
                            attempt.leading_votes(),
                            attempt.threshold(),
                            min_threshold as nat,
                        )
                    }
                },
                Err(_) => false,
            },
    {
        decide_bft_consensus(attempt, min_threshold)
    }
}

} // verus!
