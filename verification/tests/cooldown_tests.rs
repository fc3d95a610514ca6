use ez_web3_rpc::calls::is_rate_limited;
use ez_web3_rpc::cooldown::{cooldown_delay_ms, CooldownInfo, CooldownTracker, MAX_COOLDOWN_MS};

#[test]
fn delay_grows_by_half_for_plain_failures() {
    let expected = [30_000u64, 45_000, 67_500, 101_250, 151_875, 227_812, 300_000, 300_000];
    for (i, want) in expected.iter().enumerate() {
        assert_eq!(cooldown_delay_ms(30_000, i as u32 + 1, false), *want);
    }
}

#[test]
fn delay_doubles_for_rate_limited_failures() {
    let expected = [30_000u64, 60_000, 120_000, 240_000, 300_000, 300_000];
    for (i, want) in expected.iter().enumerate() {
        assert_eq!(cooldown_delay_ms(30_000, i as u32 + 1, true), *want);
    }
}

#[test]
fn delay_is_rounded_down_and_capped_at_five_minutes() {
    assert_eq!(MAX_COOLDOWN_MS, 5 * 60 * 1000);
    assert_eq!(cooldown_delay_ms(1, 2, false), 1);
    assert_eq!(cooldown_delay_ms(1, 3, false), 2);
    assert_eq!(cooldown_delay_ms(3, 2, false), 4);
    assert_eq!(cooldown_delay_ms(1000, 3, false), 2250);
    assert_eq!(cooldown_delay_ms(1000, 3, true), 4000);
    assert_eq!(cooldown_delay_ms(0, 1, true), 0);
    assert_eq!(cooldown_delay_ms(0, u32::MAX, false), 0);
    assert_eq!(cooldown_delay_ms(1, 32, false), 287_626);
    assert_eq!(cooldown_delay_ms(1, 33, false), 300_000);
    assert_eq!(cooldown_delay_ms(1, 19, true), 262_144);
    assert_eq!(cooldown_delay_ms(1, 20, true), 300_000);
    assert_eq!(cooldown_delay_ms(1, u32::MAX, false), 300_000);
    assert_eq!(cooldown_delay_ms(u64::MAX, 1, false), 300_000);
    assert_eq!(cooldown_delay_ms(u64::MAX, 31, false), 300_000);
    assert_eq!(cooldown_delay_ms(299_999, 1, true), 299_999);
}

#[test]
fn delay_never_shrinks_from_one_strike_to_the_next() {
    for base in [0u64, 1, 7, 999, 30_000, 299_999, 300_000, 1 << 40] {
        for rate_limited in [false, true] {
            let mut last = 0;
            for strikes in 1..80u32 {
                let delay = cooldown_delay_ms(base, strikes, rate_limited);
                assert!(delay >= last);
                assert!(delay <= MAX_COOLDOWN_MS);
                last = delay;
            }
        }
    }
}

#[test]
fn a_change_from_rate_limited_to_plain_can_shrink_the_delay() {
    assert_eq!(cooldown_delay_ms(1000, 3, true), 4000);
    assert_eq!(cooldown_delay_ms(1000, 4, false), 3375);
}

#[test]
fn a_url_without_failures_is_available() {
    let tracker = CooldownTracker::new();
    assert!(tracker.is_available("https://a.example/", 0));
    assert_eq!(tracker.get("https://a.example/"), None);
}

#[test]
fn strikes_count_up_and_the_window_moves_forward() {
    let mut tracker = CooldownTracker::new();
    let url = "https://a.example/";
    tracker.apply_cooldown(url, 30_000, false, 1_000);
    assert_eq!(tracker.get(url), Some(CooldownInfo { until: 31_000, strikes: 1 }));
    assert!(!tracker.is_available(url, 30_999));
    assert!(tracker.is_available(url, 31_000));
    tracker.apply_cooldown(url, 30_000, false, 2_000);
    assert_eq!(tracker.get(url), Some(CooldownInfo { until: 47_000, strikes: 2 }));
    tracker.apply_cooldown(url, 30_000, true, 3_000);
    assert_eq!(tracker.get(url), Some(CooldownInfo { until: 123_000, strikes: 3 }));
    assert!(tracker.is_available("https://b.example/", 0));
}

#[test]
fn a_shorter_delay_does_not_shorten_the_window() {
    let mut tracker = CooldownTracker::new();
    let url = "https://a.example/";
    tracker.apply_cooldown(url, 100_000, true, 0);
    tracker.apply_cooldown(url, 100_000, true, 0);
    assert_eq!(tracker.get(url), Some(CooldownInfo { until: 200_000, strikes: 2 }));
    tracker.apply_cooldown(url, 10, false, 1);
    assert_eq!(tracker.get(url), Some(CooldownInfo { until: 200_000, strikes: 3 }));
}

#[test]
fn urls_are_tracked_apart() {
    let mut tracker = CooldownTracker::new();
    tracker.apply_cooldown("https://a.example/", 1000, false, 10);
    tracker.apply_cooldown("https://b.example/", 2000, true, 20);
    tracker.apply_cooldown("https://a.example/", 1000, false, 30);
    assert_eq!(tracker.get("https://a.example/"), Some(CooldownInfo { until: 1530, strikes: 2 }));
    assert_eq!(tracker.get("https://b.example/"), Some(CooldownInfo { until: 2020, strikes: 1 }));
}

#[test]
fn rate_limiting_is_read_off_the_failure_text() {
    assert!(is_rate_limited("Request error: status 429 Too Many Requests"));
    assert!(is_rate_limited("429"));
    assert!(!is_rate_limited("HTTP error"));
    assert!(!is_rate_limited("Timeout"));
    assert!(!is_rate_limited("4 2 9"));
    assert!(!is_rate_limited(""));
}
