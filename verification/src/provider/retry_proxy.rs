//! Racing a request across batches of endpoints, pass after pass.

use crate::error::RpcHandlerError;
use crate::json::JsonValue;
use crate::jsonrpc::JsonRpcResponse;
use crate::text::{contains_text, texts};
use crate::types::NetworkId;
use vstd::prelude::*;
use vstd::string::*;

verus! {

/// How many endpoints race at a time.
pub const BATCH_SIZE: usize = 3;

/// How a provider retries.
#[derive(Debug, Clone, Copy, PartialEq, Eq, Structural)]
pub struct RetryOptions {
    /// The number of passes over the endpoints.
    pub retry_count: u32,
    /// The pause after a failed batch, in milliseconds.
    pub retry_delay_ms: u64,
    pub chain_id: NetworkId,
    /// The timeout of a single call, in milliseconds.
    pub rpc_call_timeout_ms: u64,
}

/// A provider that retries across a pool of endpoints, its base URL among
/// them.
#[derive(Debug)]
pub struct RetryProvider {
    pub base_url: String,
    pub chain_id: NetworkId,
    pub options: RetryOptions,
}

impl Clone for RetryProvider {
    fn clone(&self) -> (copy: Self)
        ensures
            copy == *self,
    {
        RetryProvider {
            base_url: self.base_url.clone(),
            chain_id: self.chain_id,
            options: self.options,
        }
    }
}

/// The endpoints a request goes to: the given ones in their order, with the
/// base URL put in front unless it is already among them.
pub open spec fn planned_urls(ordered: Seq<Seq<char>>, base_url: Seq<char>) -> Seq<Seq<char>> {
    if ordered.contains(base_url) {
        ordered
    } else {
        seq![base_url] + ordered
    }
}

/// The number of batches that `count` endpoints make.
pub open spec fn batch_count(count: nat) -> nat {
    ((count + BATCH_SIZE - 1) / BATCH_SIZE as int) as nat
}

/// What to do after a batch in which every endpoint failed.
#[derive(Debug)]
pub enum RetryAction {
    /// Pause for `delay_ms` milliseconds, then race the next batch.
    Wait { delay_ms: u64 },
    /// Every pass is exhausted: fail with this error.
    GiveUp(RpcHandlerError),
}

/// The progress of one request through the batches and passes.
pub struct RetrySession {
    urls: Vec<String>,
    retry_count: u32,
    pass: u32,
    batch: usize,
    retry_delay_ms: u64,
    rpc_call_timeout_ms: u64,
}

impl RetrySession {
    /// The endpoints, in the order they are tried.
    pub closed spec fn urls(&self) -> Seq<Seq<char>> {
        texts(self.urls@)
    }

    /// The number of passes allowed.
    pub closed spec fn passes(&self) -> nat {
        self.retry_count as nat
    }

    /// The number of batches in a pass.
    pub open spec fn batches(&self) -> nat {
        batch_count(self.urls().len())
    }

    /// The number of batches that have failed so far.
    pub closed spec fn attempts(&self) -> nat {
        self.pass as nat * batch_count(self.urls@.len()) + self.batch as nat
    }

    /// Whether every pass has been made.
    pub open spec fn exhausted(&self) -> bool {
        self.attempts() >= self.passes() * self.batches()
    }

    /// The pause after a failed batch, in milliseconds.
    pub closed spec fn delay(&self) -> u64 {
        self.retry_delay_ms
    }

    /// The timeout of each call, in milliseconds.
    pub closed spec fn call_timeout(&self) -> u64 {
        self.rpc_call_timeout_ms
    }

    /// The batch that is raced when `attempts` batches have failed.
    pub open spec fn batch_at(&self, attempts: nat) -> Seq<Seq<char>> {
        let start = (attempts % self.batches()) * BATCH_SIZE;
        let end = if start + BATCH_SIZE <= self.urls().len() {
            start + BATCH_SIZE
        } else {
            self.urls().len() as int
        };
        self.urls().subrange(start, end)
    }

    #[verifier::type_invariant]
    closed spec fn inv(&self) -> bool {
        &&& self.urls@.len() >= 1
        &&& self.pass <= self.retry_count
        &&& self.batch < batch_count(self.urls@.len())
        &&& self.pass == self.retry_count ==> self.batch == 0
    }

    /// The session of a request that goes to `urls`.
    pub fn new(urls: Vec<String>, options: &RetryOptions) -> (session: Self)
        requires
            urls.len() >= 1,
        ensures
            session.urls() == texts(urls@),
            session.passes() == options.retry_count,
            session.delay() == options.retry_delay_ms,
            session.call_timeout() == options.rpc_call_timeout_ms,
            session.attempts() == 0,
    {
        assert(0 * batch_count(urls@.len()) == 0) by (nonlinear_arith);
        RetrySession {
            urls,
            retry_count: options.retry_count,
            pass: 0,
            batch: 0,
            retry_delay_ms: options.retry_delay_ms,
            rpc_call_timeout_ms: options.rpc_call_timeout_ms,
        }
    }

    /// The timeout of each call, in milliseconds.
    pub fn rpc_call_timeout_ms(&self) -> (timeout_ms: u64)
        ensures
            timeout_ms == self.call_timeout(),
    {
        self.rpc_call_timeout_ms
    }

    /// Whether every pass has been made; no batch is left to race then.
    pub fn is_exhausted(&self) -> (done: bool)
        ensures
            done == self.exhausted(),
            self.attempts() <= self.passes() * self.batches(),
    {
        proof {
            use_type_invariant(self);
            self.lemma_progress();
        }
        self.pass >= self.retry_count
    }

    /// While the session is not exhausted, fewer batches have failed than
    /// all passes hold; once it is, exactly as many.
    proof fn lemma_progress(&self)
        requires
            self.inv(),
        ensures
            self.pass < self.retry_count ==> self.attempts() < self.passes() * self.batches(),
            self.pass == self.retry_count ==> self.attempts() == self.passes() * self.batches(),
            self.batches() >= 1,
            self.batches() == batch_count(self.urls@.len()),
            self.pass < self.retry_count ==> self.attempts() % self.batches() == self.batch,
    {
        let b = batch_count(self.urls@.len()) as int;
        let p = self.pass as int;
        let r = self.retry_count as int;
        let k = self.batch as int;
        assert(self.urls().len() == self.urls@.len());
        if p < r {
            assert(p * b + k < r * b) by (nonlinear_arith)
                requires
                    p < r,
                    0 <= k < b,
                    0 <= p,
            ;
            assert((p * b + k) % b == k) by (nonlinear_arith)
                requires
                    0 <= k < b,
                    0 <= p,
            ;
        }
    }

    /// The endpoints to race now: the next three in order, or the remaining
    /// ones where fewer are left in the pass. Empty once the session is
    /// exhausted.
    pub fn current_batch(&self) -> (batch: Vec<String>)
        ensures
            texts(batch@) == if self.exhausted() {
                Seq::<Seq<char>>::empty()
            } else {
                self.batch_at(self.attempts())
            },
            !self.exhausted() ==> 1 <= batch.len() <= BATCH_SIZE,
    {
        proof {
            use_type_invariant(self);
            self.lemma_progress();
        }
        let mut batch: Vec<String> = Vec::new();
        if self.pass >= self.retry_count {
            assert(texts(batch@) =~= Seq::<Seq<char>>::empty());
            return batch;
        }
        let n = self.urls.len();
        assert(self.batch * 3 < n) by (nonlinear_arith)
            requires
                self.batch < (n + 3 - 1) / 3,
        ;
        let start: usize = self.batch * BATCH_SIZE;
        let end: usize = if n - start >= BATCH_SIZE {
            start + BATCH_SIZE
        } else {
            n
        };
        let mut i: usize = start;
        while i < end
            invariant
                start <= i <= end <= n,
                n == self.urls@.len(),
                texts(batch@) == texts(self.urls@).subrange(start as int, i as int),
            decreases end - i,
        {
            let ghost before = texts(batch@);
            batch.push(self.urls[i].clone());
            assert(texts(batch@) =~= before.push(self.urls[i as int]@));
            assert(texts(batch@) =~= texts(self.urls@).subrange(start as int, i + 1));
            i += 1;
        }
        batch
    }

    /// Takes note that every endpoint of the current batch failed.
    ///
    /// One more batch has failed. If that was the last batch of the last
    /// pass the request has failed for good; otherwise the caller pauses and
    /// then races the next batch, which is the first of the next pass where
    /// the pass is over. So a request whose endpoints all fail gives up after
    /// exactly as many batches as its passes hold, and not before.
    pub fn batch_failed(&mut self) -> (action: RetryAction)
        ensures
            final(self).urls() == old(self).urls(),
            final(self).passes() == old(self).passes(),
            final(self).delay() == old(self).delay(),
            final(self).call_timeout() == old(self).call_timeout(),
            final(self).attempts() == if old(self).exhausted() {
                old(self).attempts()
            } else {
                old(self).attempts() + 1
            },
            match action {
                RetryAction::Wait { delay_ms } => final(self).attempts() < final(self).passes()
                    * final(self).batches() && delay_ms == old(self).delay(),
                RetryAction::GiveUp(error) => final(self).attempts() == final(self).passes()
                    * final(self).batches() && error is AllEndpointsFailed,
            },
    {
        proof {
            use_type_invariant(&*self);
            self.lemma_progress();
        }
        if self.pass >= self.retry_count {
            return RetryAction::GiveUp(RpcHandlerError::AllEndpointsFailed);
        }
        let n = self.urls.len();
        let batches: usize = (n - 1) / BATCH_SIZE + 1;
        assert(batches == batch_count(n as nat)) by (nonlinear_arith)
            requires
                n >= 1,
                batches == (n - 1) / 3 + 1,
                batch_count(n as nat) == (n + 3 - 1) / 3,
        ;
        let ghost b = batches as int;
        let ghost p = self.pass as int;
        if self.batch + 1 < batches {
            self.batch = self.batch + 1;
        } else {
            assert((p + 1) * b + 0 == p * b + (b - 1) + 1) by (nonlinear_arith);
            self.batch = 0;
            self.pass = self.pass + 1;
        }
        proof {
            self.lemma_progress();
        }
        if self.pass >= self.retry_count {
            RetryAction::GiveUp(RpcHandlerError::AllEndpointsFailed)
        } else {
            RetryAction::Wait { delay_ms: self.retry_delay_ms }
        }
    }
}

impl RetryProvider {
    /// A provider for `base_url` on network `chain_id`.
    pub fn new(base_url: String, chain_id: NetworkId, options: RetryOptions) -> (provider: Self)
        ensures
            provider.base_url == base_url,
            provider.chain_id == chain_id,
            provider.options == options,
    {
        RetryProvider { base_url, chain_id, options }
    }

    /// Plans a request: it goes to `ordered_urls`, which the caller supplies
    /// sorted by ascending latency, with the base URL put in front unless
    /// it is already among them. The plan is never empty, so this always
    /// yields a session.
    pub fn send_request(&self, ordered_urls: Vec<String>) -> (session: Result<
        RetrySession,
        RpcHandlerError,
    >)
        ensures
            session matches Ok(s) && {
                &&& s.urls() == planned_urls(texts(ordered_urls@), self.base_url@)
                &&& s.passes() == self.options.retry_count
                &&& s.delay() == self.options.retry_delay_ms
                &&& s.call_timeout() == self.options.rpc_call_timeout_ms
                &&& s.attempts() == 0
            },
    {
        let mut urls = ordered_urls;
        if !contains_text(&urls, self.base_url.as_str()) {
            urls.insert(0, self.base_url.clone());
            assert(texts(urls@) =~= seq![self.base_url@] + texts(ordered_urls@));
        }
        if urls.len() == 0 {
            return Err(RpcHandlerError::NoAvailableRpcs { network_id: self.chain_id });
        }
        Ok(RetrySession::new(urls, &self.options))
    }
}

/// A retrying provider for `url` on network `chain_id`.
pub fn wrap_with_retry(url: String, chain_id: NetworkId, options: RetryOptions) -> (provider:
    RetryProvider)
    ensures
        provider.base_url == url,
        provider.chain_id == chain_id,
        provider.options == options,
{
    RetryProvider::new(url, chain_id, options)
}

/// What became of one call to one endpoint.
pub enum HttpOutcome {
    /// The call did not complete within its timeout.
    TimedOut { description: String },
    /// The transport failed before a status arrived.
    Failed { description: String },
    /// A status arrived. `body` holds the response where the status was a
    /// success and the body parsed, and says why it did not parse otherwise.
    Answered { status_ok: bool, body: Result<JsonRpcResponse<JsonValue>, String> },
}

/// Judges one call: only a success status with a body that parses is a
/// response. A timeout, a transport failure and a body that does not parse
/// keep their description; any other status names the endpoint.
pub fn attempt_rpc(url: &str, outcome: HttpOutcome) -> (reply: Result<
    JsonRpcResponse<JsonValue>,
    RpcHandlerError,
>)
    ensures
        match outcome {
            HttpOutcome::TimedOut { description } => reply matches Err(
                RpcHandlerError::TimeoutError(text),
            ) && text == description,
            HttpOutcome::Failed { description } => reply matches Err(
                RpcHandlerError::Network(text),
            ) && text == description,
            HttpOutcome::Answered { status_ok, body } => if !status_ok {
                reply matches Err(RpcHandlerError::JsonRpc(text)) && text@ == url@
            } else {
                match body {
                    Ok(response) => reply == Ok::<JsonRpcResponse<JsonValue>, RpcHandlerError>(
                        response,
                    ),
                    Err(description) => reply matches Err(RpcHandlerError::Network(text))
                        && text == description,
                }
            },
        },
{
    match outcome {
        HttpOutcome::TimedOut { description } => Err(RpcHandlerError::TimeoutError(description)),
        HttpOutcome::Failed { description } => Err(RpcHandlerError::Network(description)),
        HttpOutcome::Answered { status_ok, body } => {
            if !status_ok {
                Err(RpcHandlerError::JsonRpc(url.to_owned()))
            } else {
                match body {
                    Ok(response) => Ok(response),
                    Err(description) => Err(RpcHandlerError::Network(description)),
                }
            }
        },
    }
}

/// Where the race of a batch stands once a reply has arrived.
#[derive(Debug, Clone, Copy, PartialEq, Eq, Structural)]
pub enum RaceStep {
    /// A response has arrived: it wins, and the batch is over at once. The
    /// calls still under way are given up, not waited for.
    Won,
    /// The reply was a failure, and other calls are still under way.
    Pending,
    /// The reply was a failure, and it was the last: every endpoint of the
    /// batch has failed.
    BatchFailed,
}

/// The race of one batch: the same request sent to every endpoint of the
/// batch at once, the replies taken as they arrive.
pub struct BatchRace {
    batch_len: usize,
    failed: usize,
    won: bool,
}

impl BatchRace {
    /// How many endpoints race.
    pub closed spec fn size(&self) -> nat {
        self.batch_len as nat
    }

    /// How many endpoints have failed so far.
    pub closed spec fn failures(&self) -> nat {
        self.failed as nat
    }

    /// Whether a response has arrived.
    pub closed spec fn is_won(&self) -> bool {
        self.won
    }

    /// Whether the race is over: a response has arrived, or every endpoint
    /// has failed.
    pub open spec fn settled(&self) -> bool {
        self.is_won() || self.failures() == self.size()
    }

    /// Where the race stands.
    pub open spec fn standing(&self) -> RaceStep {
        if self.is_won() {
            RaceStep::Won
        } else if self.failures() == self.size() {
            RaceStep::BatchFailed
        } else {
            RaceStep::Pending
        }
    }

    #[verifier::type_invariant]
    closed spec fn inv(&self) -> bool {
        self.failed <= self.batch_len
    }

    /// The race of `batch_len` endpoints, none of which has replied yet.
    pub fn new(batch_len: usize) -> (race: Self)
        ensures
            race.size() == batch_len,
            race.failures() == 0,
            !race.is_won(),
    {
        BatchRace { batch_len, failed: 0, won: false }
    }

    /// Where the race stands.
    pub fn step(&self) -> (step: RaceStep)
        ensures
            step == self.standing(),
            self.failures() <= self.size(),
    {
        proof {
            use_type_invariant(self);
        }
        if self.won {
            RaceStep::Won
        } else if self.failed == self.batch_len {
            RaceStep::BatchFailed
        } else {
            RaceStep::Pending
        }
    }

    /// Takes note of the next reply to arrive, whichever endpoint it comes
    /// from.
    ///
    /// The first response to arrive wins, however many endpoints are still
    /// to reply and wherever its endpoint stands in the batch. A failure
    /// counts one endpoint out; the batch has failed exactly when the last
    /// of its endpoints has. A reply that arrives once the race is over
    /// changes nothing.
    pub fn reply_arrived<T, E>(&mut self, reply: &Result<T, E>) -> (step: RaceStep)
        ensures
            final(self).size() == old(self).size(),
            step == final(self).standing(),
            if old(self).settled() {
                &&& final(self).is_won() == old(self).is_won()
                &&& final(self).failures() == old(self).failures()
            } else if reply is Ok {
                &&& step is Won
                &&& final(self).is_won()
                &&& final(self).failures() == old(self).failures()
            } else {
                &&& !final(self).is_won()
                &&& final(self).failures() == old(self).failures() + 1
                &&& (step is BatchFailed) == (old(self).failures() + 1 == old(self).size())
                &&& (step is Pending) == (old(self).failures() + 1 < old(self).size())
            },
    {
        proof {
            use_type_invariant(&*self);
        }
        if !self.won && self.failed < self.batch_len {
            if reply.is_ok() {
                self.won = true;
            } else {
                self.failed = self.failed + 1;
            }
        }
        self.step()
    }
}

/// Starts the race of a batch: the request goes to every endpoint of the
/// batch at once.
pub fn race_batch(batch: &Vec<String>) -> (race: BatchRace)
    ensures
        race.size() == batch.len(),
        race.failures() == 0,
        !race.is_won(),
{
    BatchRace::new(batch.len())
}

} // verus!
