//! Exponential backoff for providers that fail.

use crate::string_map::StringMap;
use vstd::arithmetic::div_mod::{lemma_div_is_ordered, lemma_div_multiples_vanish_quotient};
use vstd::arithmetic::power::{lemma_pow_increases, lemma_pow_positive, pow};
use vstd::prelude::*;
use vstd::string::*;

verus! {

/// The longest a provider is ever set aside: five minutes, in milliseconds.
pub const MAX_COOLDOWN_MS: u64 = 300_000;

/// Backoff state of one URL.
#[derive(Debug, Clone, Copy, PartialEq, Eq, Structural)]
pub struct CooldownInfo {
    /// The instant, in milliseconds on the caller's clock, from which the URL
    /// may be used again.
    pub until: u64,
    /// How many failures have been recorded for the URL.
    pub strikes: u32,
}

/// Numerator of the growth factor: 2 for a rate-limited failure, 3/2
/// otherwise.
pub open spec fn factor_num(rate_limited: bool) -> int {
    if rate_limited {
        2
    } else {
        3
    }
}

/// Denominator of the growth factor.
pub open spec fn factor_den(rate_limited: bool) -> int {
    if rate_limited {
        1
    } else {
        2
    }
}

/// The delay before any cap: `base_ms * factor^(strikes - 1)`, rounded down.
pub open spec fn uncapped_delay(base_ms: nat, strikes: nat, rate_limited: bool) -> int {
    let k = (strikes - 1) as nat;
    (base_ms * pow(factor_num(rate_limited), k)) / pow(factor_den(rate_limited), k)
}

/// The delay that strike number `strikes` earns: `base_ms * factor^(strikes - 1)`
/// rounded down to whole milliseconds and capped at five minutes.
pub open spec fn cooldown_delay(base_ms: nat, strikes: nat, rate_limited: bool) -> int {
    let raw = uncapped_delay(base_ms, strikes, rate_limited);
    if raw < MAX_COOLDOWN_MS {
        raw
    } else {
        MAX_COOLDOWN_MS as int
    }
}

/// From the 32nd power on, either growth factor alone exceeds the cap.
proof fn lemma_factor_reaches_cap(rate_limited: bool, k: nat)
    requires
        k >= 32,
    ensures
        pow(factor_num(rate_limited), k) >= MAX_COOLDOWN_MS * pow(factor_den(rate_limited), k),
        pow(factor_den(rate_limited), k) > 0,
    decreases k,
{
    let num = factor_num(rate_limited);
    let den = factor_den(rate_limited);
    lemma_pow_positive(den, k);
    if k == 32 {
        reveal_with_fuel(pow, 33);
        assert(pow(3, 32) == 1853020188851841);
        assert(pow(2, 32) == 4294967296);
        assert(pow(1, 32) == 1);
    } else {
        let j = (k - 1) as nat;
        lemma_factor_reaches_cap(rate_limited, j);
        reveal_with_fuel(pow, 2);
        assert(pow(num, k) == num * pow(num, j));
        assert(pow(den, k) == den * pow(den, j));
        let a = pow(num, j);
        let b = pow(den, j);
        assert(num * a >= MAX_COOLDOWN_MS * (den * b)) by (nonlinear_arith)
            requires
                a >= MAX_COOLDOWN_MS * b,
                b > 0,
                num >= den,
                den >= 1,
        ;
    }
}

/// Below the 32nd, every power of a growth factor's numerator fits in 51 bits
/// and every power of its denominator in 32.
proof fn lemma_factor_powers_small(rate_limited: bool, k: nat)
    requires
        k < 32,
    ensures
        0 < pow(factor_num(rate_limited), k) <= 1853020188851841,
        0 < pow(factor_den(rate_limited), k) <= 4294967296,
{
    lemma_pow_positive(factor_num(rate_limited), k);
    lemma_pow_positive(factor_den(rate_limited), k);
    lemma_pow_increases(3, k, 32);
    lemma_pow_increases(2, k, 32);
    lemma_pow_increases(1, k, 32);
    reveal_with_fuel(pow, 33);
    assert(pow(3, 32) == 1853020188851841);
    assert(pow(2, 32) == 4294967296);
    assert(pow(1, 32) == 1);
}

/// One more power of the same growth factor never lowers the uncapped
/// delay.
proof fn lemma_uncapped_delay_grows(base_ms: nat, strikes: nat, rate_limited: bool)
    requires
        strikes >= 1,
    ensures
        0 <= uncapped_delay(base_ms, strikes, rate_limited) <= uncapped_delay(
            base_ms,
            strikes + 1,
            rate_limited,
        ),
{
    let k = (strikes - 1) as nat;
    let num = factor_num(rate_limited);
    let den = factor_den(rate_limited);
    let x = base_ms * pow(num, k);
    let d = pow(den, k);
    lemma_pow_positive(num, k);
    lemma_pow_positive(den, k);
    reveal_with_fuel(pow, 2);
    assert(pow(num, (k + 1) as nat) == num * pow(num, k));
    assert(pow(den, (k + 1) as nat) == den * d);
    assert(0 <= x) by (nonlinear_arith)
        requires
            x == base_ms * pow(num, k),
            pow(num, k) > 0,
    ;
    assert(base_ms * (num * pow(num, k)) == x * num) by (nonlinear_arith)
        requires
            x == base_ms * pow(num, k),
    ;
    assert(den * x <= x * num) by (nonlinear_arith)
        requires
            0 <= x,
            den <= num,
    ;
    assert(0 < den * d) by (nonlinear_arith)
        requires
            0 < den,
            0 < d,
    ;
    lemma_div_multiples_vanish_quotient(den, x, d);
    lemma_div_is_ordered(den * x, x * num, den * d);
    assert(0 <= x / d) by (nonlinear_arith)
        requires
            0 <= x,
            0 < d,
    ;
}

/// A power of 3 is at most the square of the same power of 2.
proof fn lemma_pow3_below_pow4(k: nat)
    ensures
        0 < pow(3, k) <= pow(2, k) * pow(2, k),
        0 < pow(2, k),
    decreases k,
{
    lemma_pow_positive(3, k);
    lemma_pow_positive(2, k);
    reveal_with_fuel(pow, 2);
    if k > 0 {
        let j = (k - 1) as nat;
        lemma_pow3_below_pow4(j);
        let a = pow(3, j);
        let b = pow(2, j);
        assert(pow(3, k) == 3 * a);
        assert(pow(2, k) == 2 * b);
        assert(3 * a <= (2 * b) * (2 * b)) by (nonlinear_arith)
            requires
                0 < a <= b * b,
        ;
    } else {
        assert(pow(2, 0) * pow(2, 0) == 1) by (nonlinear_arith)
            requires
                pow(2, 0) == 1,
        ;
    }
}

/// From one strike to the next the delay never shrinks, and it never exceeds
/// five minutes.
///
/// This holds whenever the first failure is of no worse kind than the next:
/// both are plain, both are rate limited, or only the next is rate limited.
/// Where a rate-limited failure is followed by a plain one it still holds
/// for the first two strikes, for a base delay of zero, and where the next
/// delay is already at the cap. For any other input the plain factor 3/2 has
/// not caught up with the doubling, and the delay does shrink.
pub proof fn lemma_cooldown_delay_monotonic(
    base_ms: nat,
    strikes: nat,
    first_limited: bool,
    next_limited: bool,
)
    requires
        strikes >= 1,
        (first_limited ==> next_limited) || strikes <= 2 || base_ms == 0 || cooldown_delay(
            base_ms,
            strikes + 1,
            next_limited,
        ) == MAX_COOLDOWN_MS,
    ensures
        0 <= cooldown_delay(base_ms, strikes, first_limited) <= cooldown_delay(
            base_ms,
            strikes + 1,
            next_limited,
        ) <= MAX_COOLDOWN_MS,
{
    let k = (strikes - 1) as nat;
    lemma_uncapped_delay_grows(base_ms, strikes, first_limited);
    lemma_uncapped_delay_grows(base_ms, strikes, next_limited);
    if first_limited == next_limited {
    } else if !first_limited {
        // A plain failure followed by a rate-limited one.
        lemma_pow3_below_pow4(k);
        vstd::arithmetic::power::lemma1_pow(k);
        vstd::arithmetic::power::lemma1_pow((k + 1) as nat);
        reveal_with_fuel(pow, 2);
        let threes = pow(3, k);
        let twos = pow(2, k);
        assert(pow(2, (k + 1) as nat) == 2 * twos);
        assert(base_ms * threes <= (base_ms * twos) * twos) by (nonlinear_arith)
            requires
                0 < threes <= twos * twos,
        ;
        assert(0 <= base_ms * threes) by (nonlinear_arith)
            requires
                0 < threes,
        ;
        lemma_div_is_ordered(base_ms * threes, (base_ms * twos) * twos, twos);
        vstd::arithmetic::div_mod::lemma_div_by_multiple(base_ms * twos, twos);
        assert(0 <= base_ms * twos) by (nonlinear_arith)
            requires
                0 < twos,
        ;
        assert(base_ms * twos <= base_ms * (2 * twos)) by (nonlinear_arith)
            requires
                0 < twos,
        ;
        assert((base_ms * (2 * twos)) / 1 == base_ms * (2 * twos));
    } else if base_ms == 0 {
        lemma_pow_positive(2, k);
        lemma_pow_positive(1, k);
        assert(0 * pow(2, k) == 0) by (nonlinear_arith);
        assert(0int / pow(1, k) == 0) by (nonlinear_arith)
            requires
                pow(1, k) > 0,
        ;
    } else if strikes <= 2 {
        // A rate-limited failure followed by a plain one, early on.
        reveal_with_fuel(pow, 4);
        if strikes == 1 {
            assert(pow(2, 0) == 1 && pow(1, 0) == 1 && pow(3, 1) == 3 && pow(2, 1) == 2);
            assert((base_ms * 1) / 1 == base_ms);
            assert(base_ms <= (base_ms * 3) / 2);
        } else {
            assert(pow(2, 1) == 2 && pow(1, 1) == 1 && pow(3, 2) == 9 && pow(2, 2) == 4);
            assert((base_ms * 2) / 1 == base_ms * 2);
            assert(base_ms * 2 <= (base_ms * 9) / 4);
        }
    } else {
    }
}

/// The delay, in milliseconds, that strike number `strikes` earns a provider.
pub fn cooldown_delay_ms(base_ms: u64, strikes: u32, is_rate_limit: bool) -> (delay: u64)
    requires
        strikes >= 1,
    ensures
        delay == cooldown_delay(base_ms as nat, strikes as nat, is_rate_limit),
        delay <= MAX_COOLDOWN_MS,
{
    let k: u32 = strikes - 1;
    let ghost num = factor_num(is_rate_limit);
    let ghost den = factor_den(is_rate_limit);
    if base_ms == 0 {
        proof {
            lemma_pow_positive(den, k as nat);
            assert(0 * pow(num, k as nat) == 0) by (nonlinear_arith);
            assert(0int / pow(den, k as nat) == 0) by (nonlinear_arith)
                requires
                    pow(den, k as nat) > 0,
            ;
        }
        return 0;
    }
    if k >= 32 {
        proof {
            lemma_factor_reaches_cap(is_rate_limit, k as nat);
            let a = pow(num, k as nat);
            let b = pow(den, k as nat);
            assert((base_ms * a) / b >= MAX_COOLDOWN_MS) by (nonlinear_arith)
                requires
                    a >= MAX_COOLDOWN_MS * b,
                    b > 0,
                    base_ms >= 1,
            ;
        }
        return MAX_COOLDOWN_MS;
    }
    let (step_num, step_den): (u128, u128) = if is_rate_limit {
        (2, 1)
    } else {
        (3, 2)
    };
    let mut n: u128 = 1;
    let mut d: u128 = 1;
    let mut j: u32 = 0;
    proof {
        reveal_with_fuel(pow, 1);
    }
    while j < k
        invariant
            j <= k < 32,
            step_num == num,
            step_den == den,
            num == factor_num(is_rate_limit),
            den == factor_den(is_rate_limit),
            n == pow(num, j as nat),
            d == pow(den, j as nat),
        decreases k - j,
    {
        proof {
            lemma_factor_powers_small(is_rate_limit, j as nat);
            lemma_factor_powers_small(is_rate_limit, (j + 1) as nat);
            reveal_with_fuel(pow, 2);
            assert(pow(num, (j + 1) as nat) == num * pow(num, j as nat));
            assert(pow(den, (j + 1) as nat) == den * pow(den, j as nat));
        }
        n = n * step_num;
        d = d * step_den;
        j += 1;
    }
    proof {
        lemma_factor_powers_small(is_rate_limit, k as nat);
        assert(base_ms * n <= 18446744073709551615 * 1853020188851841) by (nonlinear_arith)
            requires
                base_ms <= 18446744073709551615,
                0 < n <= 1853020188851841,
        ;
    }
    let raw: u128 = (base_ms as u128 * n) / d;
    if raw < MAX_COOLDOWN_MS as u128 {
        raw as u64
    } else {
        MAX_COOLDOWN_MS
    }
}

/// Backoff state per URL. A URL that never failed has no entry.
pub struct CooldownTracker {
    entries: StringMap<CooldownInfo>,
}

impl CooldownTracker {
    /// The backoff state recorded for `url`, if it ever failed.
    pub closed spec fn info(&self, url: Seq<char>) -> Option<CooldownInfo> {
        self.entries.value_of(url)
    }

    /// The strikes recorded against `url`: 0 if it never failed.
    pub open spec fn strikes_of(&self, url: Seq<char>) -> nat {
        match self.info(url) {
            Some(info) => info.strikes as nat,
            None => 0,
        }
    }

    /// The instant until which `url` is set aside: 0 if it never failed.
    pub open spec fn until_of(&self, url: Seq<char>) -> nat {
        match self.info(url) {
            Some(info) => info.until as nat,
            None => 0,
        }
    }

    /// Whether `url` may be used at instant `now_ms`: it has no entry, or its
    /// cooldown has passed.
    pub open spec fn available(&self, url: Seq<char>, now_ms: u64) -> bool {
        self.until_of(url) <= now_ms
    }

    /// `self` is `before` after one more failure of `url` at instant
    /// `now_ms`: the strike count of `url` is up by one, its window reaches
    /// to `now_ms` plus the delay that the new strike count earns, or as far
    /// as it reached before where that is further, and no other URL has
    /// changed.
    pub open spec fn is_after_failure(
        &self,
        before: CooldownTracker,
        url: Seq<char>,
        base_ms: u64,
        rate_limited: bool,
        now_ms: u64,
    ) -> bool {
        &&& self.strikes_of(url) == before.strikes_of(url) + 1
        &&& self.until_of(url) == vstd::math::max(
            before.until_of(url) as int,
            now_ms + cooldown_delay(base_ms as nat, before.strikes_of(url) + 1, rate_limited),
        )
        &&& self.info(url).is_some()
        &&& forall|other: Seq<char>| other != url ==> #[trigger] self.info(other) == before.info(other)
    }

    /// A tracker in which no URL has failed yet.
    pub fn new() -> (tracker: Self)
        ensures
            forall|url: Seq<char>| tracker.info(url).is_none(),
    {
        let tracker = CooldownTracker { entries: StringMap::new() };
        assert forall|url: Seq<char>| tracker.info(url).is_none() by {
            assert(!tracker.entries.keys().contains(url));
        }
        tracker
    }

    /// The backoff state recorded for `url`, if it ever failed.
    pub fn get(&self, url: &str) -> (info: Option<CooldownInfo>)
        ensures
            info == self.info(url@),
    {
        match self.entries.get(url) {
            Some(info) => Some(*info),
            None => None,
        }
    }

    /// Whether `url` may be included in a new attempt at instant `now_ms`.
    pub fn is_available(&self, url: &str, now_ms: u64) -> (free: bool)
        ensures
            free == self.available(url@, now_ms),
    {
        match self.get(url) {
            Some(info) => info.until <= now_ms,
            None => true,
        }
    }

    /// Records one more failure of `url` at instant `now_ms`.
    ///
    /// The strike count goes up by one, starting at 1. The URL is set aside
    /// for the delay that the new strike count earns, counted from `now_ms`;
    /// a cooldown that already reaches further is kept. No other URL changes.
    ///
    /// So the window of `url` never moves back. It ends within five minutes
    /// of `now_ms` unless it reached beyond that before, which it cannot
    /// where the instants handed in never run backwards and each window was
    /// set by this function.
    pub fn apply_cooldown(&mut self, url: &str, base_ms: u64, is_rate_limit: bool, now_ms: u64)
        requires
            now_ms + MAX_COOLDOWN_MS <= u64::MAX,
            old(self).strikes_of(url@) < u32::MAX,
        ensures
            final(self).is_after_failure(*old(self), url@, base_ms, is_rate_limit, now_ms),
            old(self).until_of(url@) <= final(self).until_of(url@),
            now_ms <= final(self).until_of(url@),
            final(self).until_of(url@) <= vstd::math::max(
                old(self).until_of(url@) as int,
                now_ms + MAX_COOLDOWN_MS,
            ),
            old(self).until_of(url@) <= now_ms + MAX_COOLDOWN_MS ==> final(self).until_of(url@)
                <= now_ms + MAX_COOLDOWN_MS,
    {
        let existing = self.get(url);
        let (strikes, held): (u32, u64) = match existing {
            Some(info) => (info.strikes + 1, info.until),
            None => (1, 0),
        };
        let delay = cooldown_delay_ms(base_ms, strikes, is_rate_limit);
        let reach: u64 = now_ms + delay;
        let until: u64 = if held > reach {
            held
        } else {
            reach
        };
        self.entries.insert(url.to_owned(), CooldownInfo { until, strikes });
    }
}

} // verus!
