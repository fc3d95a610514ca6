//! Judging the probes of a set of endpoints.

use crate::json::{member_of, text_of, JsonValue};
use crate::string_map::{distinct_keys, last_index_of, lemma_absent_key, occurrences, StringMap};
use crate::text::{same_text, starts_with};
use vstd::prelude::*;
use vstd::string::*;

verus! {

/// The latency, in milliseconds, of every endpoint that passed its probe,
/// by URL.
pub type LatencyMap = StringMap<u64>;

/// What the probe of one URL found.
#[derive(Debug, PartialEq, Eq)]
pub struct RpcCheckResult {
    pub url: String,
    pub success: bool,
    pub duration: u64,
    pub block_number: Option<String>,
    pub bytecode_ok: bool,
}

/// What one probe call came back with.
#[derive(Debug)]
pub struct ProbeReply {
    /// The call completed with a success status and a JSON body that has a
    /// `result` member.
    pub ok: bool,
    /// The JSON body, where the call completed with a success status and
    /// the body parsed.
    pub body: Option<JsonValue>,
    /// How long the call took, in milliseconds.
    pub duration: u64,
}

/// The two probe calls made to one URL.
#[derive(Debug)]
pub struct ProbeOutcome {
    pub url: String,
    /// The reply to the request for the latest block header.
    pub block: ProbeReply,
    /// The reply to the request for the code of the reference contract.
    pub code: ProbeReply,
}

/// The address of the contract whose code serves as the correctness oracle.
pub const PERMIT2_ADDRESS: &'static str = "0x000000000022D473030F116dDEE9F6B43aC78BA3";

/// What the code of the reference contract begins with.
pub const PERMIT2_BYTECODE_PREFIX: &'static str = "0x604060808152600";

/// Whether `bytecode` is the code of the reference contract: it is present
/// and begins with the expected prefix.
pub fn is_permit2_bytecode_valid(bytecode: Option<&str>) -> (valid: bool)
    ensures
        valid == match bytecode {
            Some(code) => PERMIT2_BYTECODE_PREFIX.spec_bytes().is_prefix_of(code.spec_bytes()),
            None => false,
        },
{
    match bytecode {
        Some(code) => starts_with(code, PERMIT2_BYTECODE_PREFIX),
        None => false,
    }
}

/// Reads one probe call. A call that failed in any way, or whose status was
/// not a success, or whose body did not parse, counts as a plain failure;
/// otherwise it is good exactly when the body has a `result` member.
pub fn probe_reply(status_ok: bool, body: Option<JsonValue>, duration: u64) -> (reply: ProbeReply)
    ensures
        reply.duration == duration,
        match body {
            Some(json) if status_ok => {
                &&& reply.ok == member_of(json@, "result"@).is_some()
                &&& reply.body == Some(json)
            },
            _ => !reply.ok && reply.body.is_none(),
        },
{
    if !status_ok {
        return ProbeReply { ok: false, body: None, duration };
    }
    match body {
        Some(json) => {
            let ok = json.get("result").is_some();
            ProbeReply { ok, body: Some(json), duration }
        },
        None => ProbeReply { ok: false, body: None, duration },
    }
}

/// The block number a block reply reports: the text of `result.number`.
pub open spec fn reported_block(body: Option<JsonValue>) -> Option<Seq<char>> {
    match body {
        Some(json) => match member_of(json@, "result"@) {
            Some(result) => match member_of(result, "number"@) {
                Some(number) => text_of(number),
                None => None,
            },
            None => None,
        },
        None => None,
    }
}

/// The bytecode a code reply reports: the text of `result`.
pub open spec fn reported_code(body: Option<JsonValue>) -> Option<Seq<char>> {
    match body {
        Some(json) => match member_of(json@, "result"@) {
            Some(result) => text_of(result),
            None => None,
        },
        None => None,
    }
}

/// The bytecode is that of the reference contract.
pub open spec fn code_is_valid(code: Option<Seq<char>>) -> bool {
    match code {
        Some(text) => PERMIT2_BYTECODE_PREFIX.spec_bytes().is_prefix_of(
            vstd::utf8::encode_utf8(text),
        ),
        None => false,
    }
}

/// The view of an optional string.
pub open spec fn opt_text(text: Option<String>) -> Option<Seq<char>> {
    match text {
        Some(t) => Some(t@),
        None => None,
    }
}

/// Judges the probe of one URL.
///
/// The probe succeeds only if both calls are good and the bytecode is that
/// of the reference contract. Its duration is that of the slower call.
pub fn check_rpc(outcome: &ProbeOutcome) -> (check: RpcCheckResult)
    ensures
        check.url@ == outcome.url@,
        opt_text(check.block_number) == reported_block(outcome.block.body),
        check.bytecode_ok == code_is_valid(reported_code(outcome.code.body)),
        check.success == (outcome.block.ok && outcome.code.ok && check.bytecode_ok),
        check.duration == vstd::math::max(
            outcome.block.duration as int,
            outcome.code.duration as int,
        ),
{
    let mut block_number: Option<String> = None;
    match &outcome.block.body {
        Some(json) => match json.get("result") {
            Some(result) => match result.get("number") {
                Some(number) => match number.as_str() {
                    Some(text) => {
                        block_number = Some(text.to_owned());
                    },
                    None => {},
                },
                None => {},
            },
            None => {},
        },
        None => {},
    }
    let mut bytecode_ok = false;
    match &outcome.code.body {
        Some(json) => match json.get("result") {
            Some(result) => {
                bytecode_ok = is_permit2_bytecode_valid(result.as_str());
            },
            None => {},
        },
        None => {},
    }
    let success = outcome.block.ok && outcome.code.ok && bytecode_ok;
    let duration = if outcome.block.duration > outcome.code.duration {
        outcome.block.duration
    } else {
        outcome.code.duration
    };
    RpcCheckResult { url: outcome.url.clone(), success, duration, block_number, bytecode_ok }
}

/// The block numbers that count towards the majority: those reported by the
/// first `n` checks that succeeded.
pub open spec fn voting_blocks(checks: Seq<RpcCheckResult>, n: nat) -> Seq<Seq<char>>
    decreases n,
{
    if n == 0 || n > checks.len() {
        Seq::empty()
    } else {
        let before = voting_blocks(checks, (n - 1) as nat);
        let check = checks[n - 1];
        if check.success && check.block_number.is_some() {
            before.push(check.block_number->0@)
        } else {
            before
        }
    }
}

/// `block` is the block number most often reported by the checks that
/// succeeded; among numbers reported equally often, the one seen first.
/// `None` where no successful check reports a block number.
pub open spec fn is_majority_block(checks: Seq<RpcCheckResult>, block: Option<Seq<char>>) -> bool {
    let blocks = voting_blocks(checks, checks.len());
    let seen = distinct_keys(blocks);
    let counts = Seq::new(seen.len(), |i: int| occurrences(blocks, seen[i]));
    match block {
        Some(b) => exists|i: int| #[trigger]
            is_majority_at(counts, i) && seen[i] == b,
        None => blocks.len() == 0,
    }
}

/// Position `i` holds the highest count, and is the first to do so.
pub open spec fn is_majority_at(counts: Seq<nat>, i: int) -> bool {
    &&& 0 <= i < counts.len()
    &&& forall|j: int| 0 <= j < counts.len() ==> counts[j] <= counts[i]
    &&& forall|j: int| 0 <= j < i ==> counts[j] < counts[i]
}

/// A check counts for the latency map: it succeeded, and the block number
/// it reports, if it reports one, is the majority's.
///
/// Only a block number that differs from the majority's keeps a successful
/// check out. A successful check that reports no block number at all has
/// none to differ by, and counts, whether or not the others agree on one.
pub open spec fn is_accepted(check: RpcCheckResult, majority: Option<Seq<char>>) -> bool {
    &&& check.success
    &&& (check.block_number.is_some() && majority.is_some() ==> check.block_number->0@
        == majority->0)
}

/// The URLs of the checks among the first `n` that count for the latency
/// map, in order.
pub open spec fn accepted_urls(
    checks: Seq<RpcCheckResult>,
    majority: Option<Seq<char>>,
    n: nat,
) -> Seq<Seq<char>>
    decreases n,
{
    if n == 0 || n > checks.len() {
        Seq::empty()
    } else {
        let before = accepted_urls(checks, majority, (n - 1) as nat);
        if is_accepted(checks[n - 1], majority) {
            before.push(checks[n - 1].url@)
        } else {
            before
        }
    }
}

/// The durations of the checks among the first `n` that count for the
/// latency map, in order.
pub open spec fn accepted_durations(
    checks: Seq<RpcCheckResult>,
    majority: Option<Seq<char>>,
    n: nat,
) -> Seq<u64>
    decreases n,
{
    if n == 0 || n > checks.len() {
        Seq::empty()
    } else {
        let before = accepted_durations(checks, majority, (n - 1) as nat);
        if is_accepted(checks[n - 1], majority) {
            before.push(checks[n - 1].duration)
        } else {
            before
        }
    }
}

/// `map` holds exactly the accepted checks: its URLs are those of the
/// accepted checks in order of first appearance, each with the duration of
/// the last accepted check of that URL.
pub open spec fn is_latency_map_of(
    map: LatencyMap,
    checks: Seq<RpcCheckResult>,
    majority: Option<Seq<char>>,
) -> bool {
    let urls = accepted_urls(checks, majority, checks.len());
    let durations = accepted_durations(checks, majority, checks.len());
    &&& map.keys() == distinct_keys(urls)
    &&& map.values().len() == map.keys().len()
    &&& forall|j: int|
        0 <= j < map.keys().len() ==> 0 <= last_index_of(urls, map.keys()[j]) < urls.len() && (
        #[trigger] map.values()[j]) == durations[last_index_of(urls, map.keys()[j])]
}

/// The block number most often reported by the checks that succeeded.
pub fn majority_block(checks: &Vec<RpcCheckResult>) -> (block: Option<String>)
    ensures
        is_majority_block(checks@, opt_text(block)),
{
    let ghost all = voting_blocks(checks@, checks@.len());
    let mut counts: StringMap<usize> = StringMap::new();
    let mut i: usize = 0;
    let ghost mut blocks: Seq<Seq<char>> = Seq::empty();
    proof {
        counts.lemma_shape();
    }
    while i < checks.len()
        invariant
            i <= checks.len(),
            blocks == voting_blocks(checks@, i as nat),
            blocks.len() <= i,
            counts.wf(),
            counts.keys() == distinct_keys(blocks),
            counts.values().len() == counts.keys().len(),
            forall|j: int|
                0 <= j < counts.keys().len() ==> (#[trigger] counts.values()[j]) == occurrences(
                    blocks,
                    counts.keys()[j],
                ),
        decreases checks.len() - i,
    {
        let check = &checks[i];
        if check.success {
            match &check.block_number {
                Some(number) => {
                    let ghost old_keys = counts.keys();
                    let ghost old_votes = counts.values();
                    let ghost next = blocks.push(number@);
                    proof {
                        counts.lemma_shape();
                        assert(next.drop_last() =~= blocks);
                        lemma_absent_key(blocks, number@);
                    }
                    let votes: usize = match counts.get(number.as_str()) {
                        Some(c) => {
                            proof {
                                let p = old_keys.index_of(number@);
                                assert(old_keys[p] == number@);
                                assert(old_votes[p] == occurrences(blocks, number@));
                            }
                            *c + 1
                        },
                        None => 1,
                    };
                    counts.insert(number.clone(), votes);
                    proof {
                        counts.lemma_shape();
                        let new_keys = counts.keys();
                        assert forall|j: int| 0 <= j < new_keys.len() implies (
                        #[trigger] counts.values()[j]) == occurrences(next, new_keys[j]) by {
                            if j < old_keys.len() {
                                assert(new_keys[j] == old_keys[j]);
                                assert(old_votes[j] == occurrences(blocks, old_keys[j]));
                            }
                        }
                        blocks = next;
                    }
                },
                None => {},
            }
        }
        i += 1;
    }
    let n = counts.len();
    if n == 0 {
        proof {
            if blocks.len() > 0 {
                lemma_absent_key(blocks, blocks.last());
                assert(blocks.drop_last().push(blocks.last()) =~= blocks);
            }
        }
        return None;
    }
    let mut lead: usize = 0;
    let mut j: usize = 1;
    while j < n
        invariant
            n == counts.keys().len(),
            n == counts.values().len(),
            0 <= lead < j <= n,
            forall|k: int| 0 <= k < j ==> counts.values()[k] <= counts.values()[lead as int],
            forall|k: int| 0 <= k < lead ==> counts.values()[k] < counts.values()[lead as int],
        decreases n - j,
    {
        if *counts.value_at(j) > *counts.value_at(lead) {
            lead = j;
        }
        j += 1;
    }
    proof {
        let seen = distinct_keys(blocks);
        let tallies = Seq::new(seen.len(), |i: int| occurrences(blocks, seen[i]));
        assert forall|k: int| 0 <= k < tallies.len() implies tallies[k] == counts.values()[k] by {}
        assert(is_majority_at(tallies, lead as int));
        assert(blocks.len() > 0) by {
            if blocks.len() == 0 {
                assert(distinct_keys(blocks).len() == 0);
            }
        }
    }
    Some(counts.key_at(lead).clone())
}

/// Reads the probes of a set of endpoints.
///
/// Every probe is judged by [`check_rpc`]. The latency map then receives
/// each URL whose probe succeeded and whose block number, if it reports
/// one, is the one that most successful probes report: an endpoint that
/// serves the wrong code or lags behind the others never enters the map. An
/// empty map says that no endpoint is usable.
pub fn measure_rpcs(outcomes: &Vec<ProbeOutcome>) -> (measured: (LatencyMap, Vec<RpcCheckResult>))
    ensures
        measured.1.len() == outcomes.len(),
        forall|i: int|
            0 <= i < outcomes.len() ==> is_check_of(#[trigger] measured.1[i], outcomes[i]),
        exists|majority: Option<Seq<char>>|
            #![trigger is_majority_block(measured.1@, majority)]
            is_majority_block(measured.1@, majority) && is_latency_map_of(
                measured.0,
                measured.1@,
                majority,
            ),
{
    let mut checks: Vec<RpcCheckResult> = Vec::new();
    let mut i: usize = 0;
    while i < outcomes.len()
        invariant
            i <= outcomes.len(),
            checks.len() == i,
            forall|k: int| 0 <= k < i ==> is_check_of(#[trigger] checks[k], outcomes[k]),
        decreases outcomes.len() - i,
    {
        checks.push(check_rpc(&outcomes[i]));
        i += 1;
    }
    let majority = majority_block(&checks);
    let latencies = latency_map(&checks, &majority);
    (latencies, checks)
}

/// `check` is what [`check_rpc`] makes of `outcome`.
pub open spec fn is_check_of(check: RpcCheckResult, outcome: ProbeOutcome) -> bool {
    &&& check.url@ == outcome.url@
    &&& opt_text(check.block_number) == reported_block(outcome.block.body)
    &&& check.bytecode_ok == code_is_valid(reported_code(outcome.code.body))
    &&& check.success == (outcome.block.ok && outcome.code.ok && check.bytecode_ok)
    &&& check.duration == vstd::math::max(
        outcome.block.duration as int,
        outcome.code.duration as int,
    )
}

/// The latency map of a set of checks, given the majority block number.
pub fn latency_map(checks: &Vec<RpcCheckResult>, majority: &Option<String>) -> (map: LatencyMap)
    ensures
        is_latency_map_of(map, checks@, opt_text(*majority)),
{
    let ghost common = opt_text(*majority);
    let mut map: LatencyMap = StringMap::new();
    let mut i: usize = 0;
    let ghost mut urls: Seq<Seq<char>> = Seq::empty();
    let ghost mut durations: Seq<u64> = Seq::empty();
    proof {
        map.lemma_shape();
    }
    while i < checks.len()
        invariant
            i <= checks.len(),
            common == opt_text(*majority),
            urls == accepted_urls(checks@, common, i as nat),
            durations == accepted_durations(checks@, common, i as nat),
            urls.len() == durations.len(),
            map.wf(),
            map.keys() == distinct_keys(urls),
            map.values().len() == map.keys().len(),
            forall|j: int|
                0 <= j < map.keys().len() ==> 0 <= #[trigger] last_index_of(urls, map.keys()[j])
                    < urls.len(),
            forall|j: int|
                0 <= j < map.keys().len() ==> (#[trigger] map.values()[j]) == durations[last_index_of(
                    urls,
                    map.keys()[j],
                )],
        decreases checks.len() - i,
    {
        let check = &checks[i];
        let in_sync = match (&check.block_number, majority) {
            (Some(number), Some(common_number)) => same_text(
                number.as_str(),
                common_number.as_str(),
            ),
            _ => true,
        };
        if check.success && in_sync {
            let ghost old_keys = map.keys();
            let ghost old_values = map.values();
            let ghost next_urls = urls.push(check.url@);
            let ghost next_durations = durations.push(check.duration);
            proof {
                map.lemma_shape();
                assert(next_urls.drop_last() =~= urls);
                lemma_absent_key(urls, check.url@);
            }
            map.insert(check.url.clone(), check.duration);
            proof {
                map.lemma_shape();
                let new_keys = map.keys();
                assert forall|j: int| 0 <= j < new_keys.len() implies 0 <= #[trigger] last_index_of(
                    next_urls,
                    new_keys[j],
                ) < next_urls.len() by {
                    if j < old_keys.len() {
                        assert(new_keys[j] == old_keys[j]);
                        assert(0 <= last_index_of(urls, old_keys[j]) < urls.len());
                    }
                }
                assert forall|j: int| 0 <= j < new_keys.len() implies (#[trigger] map.values()[j])
                    == next_durations[last_index_of(next_urls, new_keys[j])] by {
                    if j < old_keys.len() {
                        assert(new_keys[j] == old_keys[j]);
                        assert(0 <= last_index_of(urls, old_keys[j]) < urls.len());
                        assert(old_values[j] == durations[last_index_of(urls, old_keys[j])]);
                    }
                }
                urls = next_urls;
                durations = next_durations;
            }
        }
        i += 1;
    }
    map
}

/// Every accepted URL, with its duration, comes from an accepted check.
proof fn lemma_accepted_come_from_checks(
    checks: Seq<RpcCheckResult>,
    majority: Option<Seq<char>>,
    n: nat,
    p: int,
)
    requires
        n <= checks.len(),
        0 <= p < accepted_urls(checks, majority, n).len(),
    ensures
        accepted_durations(checks, majority, n).len() == accepted_urls(checks, majority, n).len(),
        exists|i: int|
            0 <= i < n && is_accepted(#[trigger] checks[i], majority) && checks[i].url@
                == accepted_urls(checks, majority, n)[p] && checks[i].duration
                == accepted_durations(checks, majority, n)[p],
    decreases n,
{
    lemma_accepted_lengths(checks, majority, n);
    if n > 0 {
        let before = accepted_urls(checks, majority, (n - 1) as nat);
        lemma_accepted_lengths(checks, majority, (n - 1) as nat);
        if p < before.len() {
            lemma_accepted_come_from_checks(checks, majority, (n - 1) as nat, p);
            let i = choose|i: int|
                0 <= i < n - 1 && is_accepted(#[trigger] checks[i], majority) && checks[i].url@
                    == before[p] && checks[i].duration == accepted_durations(
                    checks,
                    majority,
                    (n - 1) as nat,
                )[p];
            assert(is_accepted(checks[i], majority));
        } else {
            assert(is_accepted(checks[n - 1], majority));
        }
    }
}

/// As many durations are accepted as URLs.
proof fn lemma_accepted_lengths(checks: Seq<RpcCheckResult>, majority: Option<Seq<char>>, n: nat)
    ensures
        accepted_durations(checks, majority, n).len() == accepted_urls(checks, majority, n).len(),
    decreases n,
{
    if n > 0 && n <= checks.len() {
        lemma_accepted_lengths(checks, majority, (n - 1) as nat);
    }
}

/// Every accepted check has its URL among the accepted URLs.
proof fn lemma_checks_are_accepted(
    checks: Seq<RpcCheckResult>,
    majority: Option<Seq<char>>,
    n: nat,
    i: int,
)
    requires
        n <= checks.len(),
        0 <= i < n,
        is_accepted(checks[i], majority),
    ensures
        accepted_urls(checks, majority, n).contains(checks[i].url@),
    decreases n,
{
    let urls = accepted_urls(checks, majority, n);
    let before = accepted_urls(checks, majority, (n - 1) as nat);
    if i == n - 1 {
        assert(urls[before.len() as int] == checks[i].url@);
    } else {
        lemma_checks_are_accepted(checks, majority, (n - 1) as nat, i);
        let p = choose|p: int| 0 <= p < before.len() && before[p] == checks[i].url@;
        assert(urls[p] == checks[i].url@);
    }
}

/// A key occurs at the position that is reported as its last.
proof fn lemma_last_index(keys: Seq<Seq<char>>, key: Seq<char>)
    ensures
        0 <= last_index_of(keys, key) ==> last_index_of(keys, key) < keys.len()
            && keys[last_index_of(keys, key)] == key,
        keys.contains(key) ==> 0 <= last_index_of(keys, key),
        keys.contains(key) <==> distinct_keys(keys).contains(key),
    decreases keys.len(),
{
    if keys.len() > 0 {
        let rest = keys.drop_last();
        lemma_last_index(rest, key);
        let before = distinct_keys(rest);
        if keys.contains(key) {
            let p = choose|p: int| 0 <= p < keys.len() && keys[p] == key;
            if p < keys.len() - 1 {
                assert(rest[p] == key);
            }
        }
        if rest.contains(key) {
            let p = choose|p: int| 0 <= p < rest.len() && rest[p] == key;
            assert(keys[p] == key);
        }
        if keys.last() == key {
            assert(keys[keys.len() - 1] == key);
        }
        if !before.contains(keys.last()) {
            assert(before.push(keys.last())[before.len() as int] == keys.last());
            if before.contains(key) {
                let q = choose|q: int| 0 <= q < before.len() && before[q] == key;
                assert(before.push(keys.last())[q] == key);
            }
        }
    }
}

/// What the latency map holds, and what it leaves out.
///
/// A URL is in the latency map exactly when some check of that URL was
/// accepted: it succeeded, and its block number, if it reports one, is the
/// majority's. The latency recorded for the URL is the duration of one such
/// check. So an endpoint whose every probe failed, or reported another block
/// than the majority, is not in the map.
pub proof fn lemma_latency_map_entries(
    map: LatencyMap,
    checks: Seq<RpcCheckResult>,
    majority: Option<Seq<char>>,
    url: Seq<char>,
)
    requires
        map.wf(),
        is_latency_map_of(map, checks, majority),
    ensures
        map.keys().contains(url) <==> exists|i: int|
            0 <= i < checks.len() && #[trigger] checks[i].url@ == url && is_accepted(
                checks[i],
                majority,
            ),
        map.keys().contains(url) ==> exists|i: int|
            0 <= i < checks.len() && #[trigger] checks[i].url@ == url && is_accepted(
                checks[i],
                majority,
            ) && map.value_of(url) == Some(checks[i].duration),
{
    let n = checks.len();
    let urls = accepted_urls(checks, majority, n);
    let durations = accepted_durations(checks, majority, n);
    lemma_last_index(urls, url);
    map.lemma_shape();
    if map.keys().contains(url) {
        let j = map.keys().index_of(url);
        assert(map.keys()[j] == url);
        map.lemma_index(j);
        let p = last_index_of(urls, url);
        assert(0 <= last_index_of(urls, map.keys()[j]) < urls.len());
        assert(map.values()[j] == durations[p]);
        lemma_accepted_come_from_checks(checks, majority, n, p);
        let i = choose|i: int|
            0 <= i < n && is_accepted(#[trigger] checks[i], majority) && checks[i].url@ == urls[p]
                && checks[i].duration == durations[p];
        assert(checks[i].url@ == url);
    }
    if exists|i: int|
        0 <= i < checks.len() && #[trigger] checks[i].url@ == url && is_accepted(
            checks[i],
            majority,
        ) {
        let i = choose|i: int|
            0 <= i < checks.len() && #[trigger] checks[i].url@ == url && is_accepted(
                checks[i],
                majority,
            );
        lemma_checks_are_accepted(checks, majority, n, i);
    }
}

/// An endpoint that serves the wrong code is never in the latency map.
///
/// Where the checks are those of the probes, every URL of the latency map
/// has a probe whose two calls were good and whose bytecode begins with the
/// expected prefix.
pub proof fn lemma_latency_map_needs_valid_bytecode(
    map: LatencyMap,
    outcomes: Seq<ProbeOutcome>,
    checks: Seq<RpcCheckResult>,
    majority: Option<Seq<char>>,
    url: Seq<char>,
)
    requires
        map.wf(),
        checks.len() == outcomes.len(),
        forall|i: int| 0 <= i < outcomes.len() ==> is_check_of(#[trigger] checks[i], outcomes[i]),
        is_latency_map_of(map, checks, majority),
        map.keys().contains(url),
    ensures
        exists|i: int|
            0 <= i < outcomes.len() && #[trigger] outcomes[i].url@ == url && outcomes[i].block.ok
                && outcomes[i].code.ok && code_is_valid(reported_code(outcomes[i].code.body)),
{
    lemma_latency_map_entries(map, checks, majority, url);
    let i = choose|i: int|
        0 <= i < checks.len() && #[trigger] checks[i].url@ == url && is_accepted(
            checks[i],
            majority,
        );
    assert(is_check_of(checks[i], outcomes[i]));
    assert(outcomes[i].url@ == url);
}

} // verus!
