use codex_usage::accounting::endpoint_key;
use codex_usage::adapter::{Counter, Tokens};
use codex_usage::aggregates::session_detail::{Projection, UsageGroup};
use codex_usage::pricing::{CacheWritePolicy, Rates, ReasoningPolicy};
use codex_usage::source::normalized_path;
use codex_usage::storage::dashboard::range_quota::{Sample, SelectedQuota};
use codex_usage::weekly::{Cost, Time};

fn tokens(values: [i64; 6]) -> Tokens {
    Tokens {
        input_tokens: Counter::Known(values[0]),
        cached_input_tokens: Counter::Known(values[1]),
        cache_write_input_tokens: Counter::Known(values[2]),
        output_tokens: Counter::Known(values[3]),
        reasoning_output_tokens: Counter::Known(values[4]),
        total_tokens: Counter::Known(values[5]),
    }
}

#[test]
fn endpoint_keys_sort_as_counters() {
    let small = endpoint_key(&tokens([10, 0, 0, 5, 0, 15])).unwrap();
    let large = endpoint_key(&tokens([20, 0, 0, 5, 0, 25])).unwrap();
    assert_eq!(small.len(), 96);
    assert!(small < large);
    assert_eq!(endpoint_key(&tokens([10, 0, 0, 5, 0, 15])).unwrap(), small);
    assert_eq!(endpoint_key(&tokens([-1, 0, 0, 5, 0, 15])), None);
}

#[test]
fn normalizing_twice_changes_nothing() {
    for path in ["/a//b/./c/", "./x/../y", "a/b/", "", ".", "/"] {
        let once = normalized_path(path);
        assert_eq!(normalized_path(&once), once, "{path}");
    }
    assert_eq!(normalized_path("/a//b/./c/"), "/a/b/c");
}

#[test]
fn valuation_is_additive() {
    let rates = Rates {
        input: 2,
        cached_input: 1,
        cache_write: 3,
        output: 7,
        reasoning: 5,
        reasoning_policy: ReasoningPolicy::Separate,
        cache_write_policy: CacheWritePolicy::Additional,
    };
    let a = tokens([10, 4, 1, 6, 2, 16]);
    let b = tokens([3, 1, 0, 9, 9, 12]);
    let sum = tokens([13, 5, 1, 15, 11, 28]);
    assert_eq!(rates.value(&sum).unwrap(), rates.value(&a).unwrap() + rates.value(&b).unwrap());
}

fn group(seconds: i64, tokens: Option<i64>, cost: Option<&str>) -> UsageGroup {
    UsageGroup {
        time: Time { seconds, nanos: 0 },
        accepted: 2,
        tokens,
        tokens_known: if tokens.is_some() { 2 } else { 0 },
        cost: cost.map(str::to_string),
        priced: if cost.is_some() { 2 } else { 0 },
    }
}

#[test]
fn projected_totals_are_sums_over_groups() {
    let mut projection = Projection::new();
    projection.push(group(1, Some(5), None)).unwrap();
    projection.push(group(2, None, Some("7"))).unwrap();
    let (point, _) = projection.push(group(3, Some(4), Some("-2"))).unwrap();
    assert_eq!(projection.accepted, 6);
    assert_eq!(projection.tokens, Some(9));
    assert_eq!(projection.cost, Some(5));
    assert_eq!(point.cumulative_total_tokens.known_tokens.as_deref(), Some("9"));
    assert!(!point.cumulative_total_tokens.complete);
    assert!(projection.push(group(4, None, Some("1.5"))).is_err());
}

#[test]
fn newest_sample_is_the_last_qualifying_one() {
    let start = Time { seconds: 10, nanos: 0 };
    let mut quota = SelectedQuota::new(start, Time { seconds: 100, nanos: 0 });
    assert_eq!(quota.last_time(), None);
    let cost = Cost { known_subtotal: Some("0".into()), complete: true, accepted_observations: 0 };
    let sample = |seconds: i64| Sample { time: Time { seconds, nanos: 0 }, used: "1".into(), reset: None };
    quota.push(Some(&sample(5)), Time { seconds: 5, nanos: 0 }, None, &cost).unwrap();
    assert_eq!(quota.last_time(), None);
    quota.push(Some(&sample(20)), Time { seconds: 20, nanos: 0 }, None, &cost).unwrap();
    quota.push(None, Time { seconds: 30, nanos: 0 }, None, &cost).unwrap();
    assert_eq!(quota.last_time(), Some(Time { seconds: 20, nanos: 0 }));
    let read = quota.finish(None).unwrap();
    let latest = read.latest.unwrap();
    assert_eq!((latest.used_percent.as_str(), latest.remaining_percent.as_str()), ("1", "99"));
    let mut unreadable = SelectedQuota::new(start, Time { seconds: 100, nanos: 0 });
    let odd = Sample { time: Time { seconds: 20, nanos: 0 }, used: "42.25".into(), reset: Some(7) };
    unreadable.push(Some(&odd), Time { seconds: 20, nanos: 0 }, None, &cost).unwrap();
    let observation = unreadable.finish(None).unwrap().latest.unwrap();
    assert_eq!(observation.remaining_percent, "57.75");
    assert_eq!(observation.resets_at, Some(7));
    let mut broken = SelectedQuota::new(start, Time { seconds: 100, nanos: 0 });
    let bad = Sample { time: Time { seconds: 20, nanos: 0 }, used: "n/a".into(), reset: None };
    broken.push(Some(&bad), Time { seconds: 20, nanos: 0 }, None, &cost).unwrap();
    assert!(broken.finish(None).is_err());
}
