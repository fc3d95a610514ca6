//! Choosing the endpoint with the lowest latency.

use crate::performance::measure::LatencyMap;
use crate::text::{lemma_lex_transitive, lemma_lex_trichotomy, lex_less, precedes};
use vstd::prelude::*;
use vstd::string::*;
use vstd::utf8::encode_utf8;

verus! {

/// URL `a` sorts strictly before URL `b`, byte by byte.
pub open spec fn url_before(a: Seq<char>, b: Seq<char>) -> bool {
    lex_less(encode_utf8(a), encode_utf8(b))
}

/// Position `i` holds the fastest entry: no latency is lower, and among the
/// entries with the same latency its URL sorts first. So the choice depends
/// on which URLs the map holds with which latency, and on nothing else.
pub open spec fn is_fastest(urls: Seq<Seq<char>>, latencies: Seq<u64>, i: int) -> bool {
    &&& urls.len() == latencies.len()
    &&& 0 <= i < latencies.len()
    &&& forall|j: int| 0 <= j < latencies.len() ==> latencies[i] <= #[trigger] latencies[j]
    &&& forall|j: int|
        0 <= j < latencies.len() && j != i && #[trigger] latencies[j] == latencies[i]
            ==> url_before(urls[i], urls[j])
}

/// The fastest entry is found at one position only, so the choice among
/// equal latencies is always the same.
pub proof fn lemma_fastest_unique(urls: Seq<Seq<char>>, latencies: Seq<u64>, i: int, j: int)
    requires
        is_fastest(urls, latencies, i),
        is_fastest(urls, latencies, j),
    ensures
        i == j,
{
    if i != j {
        assert(latencies[i] <= latencies[j]);
        assert(latencies[j] <= latencies[i]);
        assert(url_before(urls[i], urls[j]));
        assert(url_before(urls[j], urls[i]));
        lemma_lex_trichotomy(encode_utf8(urls[i]), encode_utf8(urls[j]));
    }
}

/// Two maps that hold the same URLs with the same latencies have the same
/// fastest URL, in whatever order they were filled.
pub proof fn lemma_fastest_ignores_order(a: LatencyMap, b: LatencyMap, i: int, j: int)
    requires
        a.wf(),
        b.wf(),
        forall|url: Seq<char>| a.value_of(url) == b.value_of(url),
        is_fastest(a.keys(), a.values(), i),
        is_fastest(b.keys(), b.values(), j),
    ensures
        a.keys()[i] == b.keys()[j],
        a.values()[i] == b.values()[j],
{
    a.lemma_shape();
    b.lemma_shape();
    let first = a.keys()[i];
    let second = b.keys()[j];
    a.lemma_index(i);
    b.lemma_index(j);
    assert(b.value_of(first) == Some(a.values()[i]));
    assert(a.value_of(second) == Some(b.values()[j]));
    let in_b = b.keys().index_of(first);
    let in_a = a.keys().index_of(second);
    assert(b.keys()[in_b] == first);
    assert(a.keys()[in_a] == second);
    b.lemma_index(in_b);
    a.lemma_index(in_a);
    assert(b.values()[in_b] == a.values()[i]);
    assert(a.values()[in_a] == b.values()[j]);
    assert(a.values()[i] <= a.values()[in_a]);
    assert(b.values()[j] <= b.values()[in_b]);
    if first != second {
        assert(in_a != i);
        assert(in_b != j);
        assert(url_before(first, second));
        assert(url_before(second, first));
        lemma_lex_trichotomy(encode_utf8(first), encode_utf8(second));
    }
}

/// The URL with the lowest latency; `None` for an empty map. Among URLs
/// with the same lowest latency the one that sorts first is taken.
pub fn pick_fastest(latencies: &LatencyMap) -> (fastest: Option<String>)
    ensures
        match fastest {
            Some(url) => exists|i: int| #[trigger]
                is_fastest(latencies.keys(), latencies.values(), i) && latencies.keys()[i]
                    == url@,
            None => latencies.keys().len() == 0,
        },
{
    let n = latencies.len();
    if n == 0 {
        return None;
    }
    proof {
        latencies.lemma_shape();
    }
    let ghost urls = latencies.keys();
    let ghost values = latencies.values();
    let mut best: usize = 0;
    let mut j: usize = 1;
    while j < n
        invariant
            urls == latencies.keys(),
            values == latencies.values(),
            urls.no_duplicates(),
            n == urls.len(),
            n == values.len(),
            0 <= best < j <= n,
            forall|k: int| 0 <= k < j ==> values[best as int] <= #[trigger] values[k],
            forall|k: int|
                0 <= k < j && k != best && #[trigger] values[k] == values[best as int]
                    ==> url_before(urls[best as int], urls[k]),
        decreases n - j,
    {
        let candidate = *latencies.value_at(j);
        let held = *latencies.value_at(best);
        let ghost old_best = best as int;
        if candidate < held {
            best = j;
        } else if candidate == held {
            let ahead = precedes(latencies.key_at(j).as_str(), latencies.key_at(best).as_str());
            proof {
                let mine = encode_utf8(urls[j as int]);
                let theirs = encode_utf8(urls[old_best]);
                lemma_lex_trichotomy(mine, theirs);
                vstd::utf8::encode_utf8_decode_utf8(urls[j as int]);
                vstd::utf8::encode_utf8_decode_utf8(urls[old_best]);
                assert(urls[j as int] != urls[old_best]);
                if ahead {
                    assert forall|k: int|
                        0 <= k < j + 1 && k != j && #[trigger] values[k] == values[j as int]
                            implies url_before(urls[j as int], urls[k]) by {
                        if k != old_best {
                            assert(url_before(urls[old_best], urls[k]));
                            lemma_lex_transitive(mine, theirs, encode_utf8(urls[k]));
                        }
                    }
                }
            }
            if ahead {
                best = j;
            }
        }
        j += 1;
    }
    assert(is_fastest(urls, values, best as int));
    Some(latencies.key_at(best).clone())
}

} // verus!
