//! The first endpoint that passes its probe.

use crate::performance::measure::{
    code_is_valid, is_accepted, is_check_of, is_latency_map_of, is_majority_at, is_majority_block,
    lemma_latency_map_entries, measure_rpcs, reported_code, voting_blocks, LatencyMap,
    ProbeOutcome, RpcCheckResult,
};
use crate::shuffle::shuffle_strings;
use crate::string_map::{distinct_keys, occurrences};
use crate::text::{starts_with, texts};
use crate::types::{rpc_urls, Rpc};
use vstd::prelude::*;
use vstd::string::*;
use vstd::utf8::encode_utf8;

verus! {

/// Whether a URL may be probed: it is an `https://` URL, or plain HTTP is
/// allowed and it is an `http://` URL.
pub open spec fn is_candidate(url: Seq<char>, http_allowed: bool) -> bool {
    "https://".spec_bytes().is_prefix_of(encode_utf8(url)) || (http_allowed
        && "http://".spec_bytes().is_prefix_of(encode_utf8(url)))
}

/// The URLs that may be probed.
pub open spec fn candidates(http_allowed: bool) -> spec_fn(Seq<char>) -> bool {
    |url: Seq<char>| is_candidate(url, http_allowed)
}

/// The endpoints to probe for the first healthy one, in the order to probe
/// them in.
///
/// These are the `https://` endpoints, and the `http://` ones if `http` is
/// set, in a random order. The caller probes them one at a time and stops
/// at the first whose probe passes, see [`is_healthy`]; none passing means
/// there is no healthy endpoint.
pub fn get_first_healthy(rpcs: &Vec<Rpc>, http: Option<bool>) -> (order: Vec<String>)
    ensures
        texts(order@).to_multiset() == rpc_urls(rpcs@).filter(
            candidates(http.unwrap_or(false)),
        ).to_multiset(),
{
    let http_allowed = match http {
        Some(allowed) => allowed,
        None => false,
    };
    let ghost urls = rpc_urls(rpcs@);
    let mut filtered: Vec<String> = Vec::new();
    let mut i: usize = 0;
    assert(texts(filtered@) =~= urls.take(0).filter(candidates(http_allowed))) by {
        reveal(Seq::filter);
    }
    while i < rpcs.len()
        invariant
            i <= rpcs.len(),
            urls == rpc_urls(rpcs@),
            texts(filtered@) == urls.take(i as int).filter(candidates(http_allowed)),
        decreases rpcs.len() - i,
    {
        let url = rpcs[i].url.as_str();
        let ghost before = texts(filtered@);
        proof {
            reveal(Seq::filter);
            assert(urls.take(i + 1).drop_last() =~= urls.take(i as int));
            assert(urls.take(i + 1).last() == rpcs[i as int].url@);
        }
        if starts_with(url, "https://") || (http_allowed && starts_with(url, "http://")) {
            filtered.push(rpcs[i].url.clone());
            assert(texts(filtered@) =~= before.push(rpcs[i as int].url@));
        }
        i += 1;
    }
    assert(urls.take(rpcs.len() as int) =~= urls);
    shuffle_strings(&mut filtered);
    filtered
}

/// Whether the probe of a single endpoint passed: its latency map is not
/// empty.
pub fn is_healthy(latencies: &LatencyMap) -> (healthy: bool)
    ensures
        healthy == (latencies.keys().len() > 0),
{
    latencies.len() > 0
}

/// The probe of a single endpoint passes: both calls were good and the
/// bytecode is that of the reference contract.
pub open spec fn passes(outcome: ProbeOutcome) -> bool {
    outcome.block.ok && outcome.code.ok && code_is_valid(reported_code(outcome.code.body))
}

/// A single check is always in step with the majority, being all of it.
proof fn lemma_single_check_is_in_step(checks: Seq<RpcCheckResult>, majority: Option<Seq<char>>)
    requires
        checks.len() == 1,
        is_majority_block(checks, majority),
    ensures
        is_accepted(checks[0], majority) == checks[0].success,
{
    reveal_with_fuel(voting_blocks, 2);
    reveal_with_fuel(distinct_keys, 2);
    let check = checks[0];
    let blocks = voting_blocks(checks, 1);
    if check.success && check.block_number.is_some() && majority.is_some() {
        let number = check.block_number->0@;
        assert(voting_blocks(checks, 0) =~= Seq::<Seq<char>>::empty());
        assert(blocks =~= seq![number]);
        assert(blocks.drop_last() =~= Seq::<Seq<char>>::empty());
        let seen = distinct_keys(blocks);
        assert(seen =~= seq![number]);
        let counts = Seq::new(seen.len(), |i: int| occurrences(blocks, seen[i]));
        let i = choose|i: int| #[trigger] is_majority_at(counts, i) && seen[i] == majority->0;
        assert(i == 0);
    }
}

/// Whether the probe of a single endpoint passed: read on its own, it
/// leaves the endpoint in the latency map.
pub fn probe_passes(outcome: ProbeOutcome) -> (healthy: bool)
    ensures
        healthy == passes(outcome),
{
    let mut outcomes: Vec<ProbeOutcome> = Vec::new();
    outcomes.push(outcome);
    let (latencies, checks) = measure_rpcs(&outcomes);
    let healthy = is_healthy(&latencies);
    proof {
        use_type_invariant(&latencies);
        let majority = choose|majority: Option<Seq<char>>|
            #![trigger is_majority_block(checks@, majority)]
            is_majority_block(checks@, majority) && is_latency_map_of(
                latencies,
                checks@,
                majority,
            );
        lemma_single_check_is_in_step(checks@, majority);
        assert(is_check_of(checks[0], outcomes[0]));
        let url = checks[0].url@;
        lemma_latency_map_entries(latencies, checks@, majority, url);
        if latencies.keys().len() > 0 {
            let first = latencies.keys()[0];
            assert(latencies.keys().contains(first));
            lemma_latency_map_entries(latencies, checks@, majority, first);
        }
        if checks[0].success {
            assert(checks@[0].url@ == url && is_accepted(checks@[0], majority));
        }
    }
    healthy
}

/// The search for the first healthy endpoint: which endpoints are still to
/// be probed, in which order.
pub struct HealthScan {
    order: Vec<String>,
    next: usize,
}

impl HealthScan {
    /// The endpoints of the search, in the order they are probed in.
    pub closed spec fn order(&self) -> Seq<Seq<char>> {
        texts(self.order@)
    }

    /// How many endpoints have been probed and found wanting.
    pub closed spec fn rejected(&self) -> nat {
        self.next as nat
    }

    #[verifier::type_invariant]
    closed spec fn inv(&self) -> bool {
        self.next <= self.order@.len()
    }

    /// A search through `order`, none of which has been probed yet.
    pub fn new(order: Vec<String>) -> (scan: Self)
        ensures
            scan.order() == texts(order@),
            scan.rejected() == 0,
    {
        HealthScan { order, next: 0 }
    }

    /// The endpoint to probe now; `None` once every endpoint has been
    /// probed and found wanting, which ends the search without a result.
    pub fn candidate(&self) -> (url: Option<String>)
        ensures
            self.rejected() <= self.order().len(),
            match url {
                Some(u) => self.rejected() < self.order().len() && u@ == self.order()[self.rejected() as int],
                None => self.rejected() == self.order().len(),
            },
    {
        proof {
            use_type_invariant(self);
        }
        if self.next < self.order.len() {
            Some(self.order[self.next].clone())
        } else {
            None
        }
    }

    /// Takes note of the probe of the current candidate. Where the probe
    /// passed, the candidate is the result of the search, and the search
    /// stays where it is. Where it did not, the search moves on to the next
    /// endpoint.
    pub fn report(&mut self, outcome: ProbeOutcome) -> (found: bool)
        ensures
            found == passes(outcome),
            final(self).order() == old(self).order(),
            final(self).rejected() == if found || old(self).rejected() == old(self).order().len() {
                old(self).rejected()
            } else {
                old(self).rejected() + 1
            },
    {
        proof {
            use_type_invariant(&*self);
        }
        let found = probe_passes(outcome);
        if !found && self.next < self.order.len() {
            self.next = self.next + 1;
        }
        found
    }
}

} // verus!
