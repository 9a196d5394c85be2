use codex_usage::dashboard::BoundaryKind;
use codex_usage::storage::dashboard::range_quota::{Interval, Sample, SelectedQuota};
use codex_usage::storage::dashboard::{nanos, time};
use codex_usage::storage::retention::{
    cutoff, date, pending_sources, prefilter, sample_expired, Expired, RETENTION_SECONDS,
};
use codex_usage::weekly::{Cost, Time};

#[test]
fn retention_window_ends_at_the_newest_usage_but_never_after_the_clock() {
    let now = (2_000_000_000, 0);
    assert_eq!(cutoff(None, None, now), None);
    assert_eq!(
        cutoff(Some((1_700_000_000, 5)), None, now),
        Some((1_700_000_000 - RETENTION_SECONDS, 5))
    );
    assert_eq!(
        cutoff(Some((1_700_000_000, 5)), Some("2024-01-01T00:00:00Z"), now),
        Some((1_704_067_200 - RETENTION_SECONDS, 0))
    );
    assert_eq!(
        cutoff(Some((1_700_000_000, 5)), Some("not a time"), now),
        Some((1_700_000_000 - RETENTION_SECONDS, 5))
    );
    assert_eq!(
        cutoff(Some((3_000_000_000, 0)), None, now),
        Some((2_000_000_000 - RETENTION_SECONDS, 0))
    );
}

#[test]
fn pending_sources_are_listed_once_in_first_seen_order() {
    let expired = |id: i64, state: &str, path: &str, generation: i64| Expired {
        id,
        state: state.into(),
        path: path.into(),
        generation,
    };
    let sources = pending_sources(&[
        expired(1, "pending", "/a", 1),
        expired(2, "accepted", "/b", 1),
        expired(3, "pending", "/a", 1),
        expired(4, "pending", "/a", 2),
        expired(5, "pending", "/c", 1),
    ]);
    assert_eq!(
        sources,
        vec![
            (String::from("/a"), 1),
            (String::from("/a"), 2),
            (String::from("/c"), 1)
        ]
    );
}

#[test]
fn samples_expire_strictly_before_the_cutoff_and_dates_prefilter() {
    assert!(sample_expired("2024-01-01T00:00:00Z", (1_704_067_201, 0)));
    assert!(!sample_expired("2024-01-01T00:00:00Z", (1_704_067_200, 0)));
    assert!(sample_expired("2024-01-01T01:00:00+02:00", (1_704_067_200, 0)));
    assert!(!sample_expired("garbage", (i64::MAX, 0)));
    assert_eq!(date(1_704_067_200).as_deref(), Some("2024-01-01"));
    assert_eq!(date(-62_135_596_800).as_deref(), Some("0001-01-01"));
    assert_eq!(prefilter((1_704_067_200, 0)).as_deref(), Some("2024-01-03"));
}

#[test]
fn instants_convert_to_and_from_nanoseconds() {
    let t = Time {
        seconds: -2,
        nanos: 999_999_999,
    };
    assert_eq!(nanos(t), -1_000_000_001);
    assert_eq!(time(-1_000_000_001), t);
    assert_eq!(
        time(nanos(Time {
            seconds: 5,
            nanos: 0
        }) - 1),
        Time {
            seconds: 4,
            nanos: 999_999_999
        }
    );
}

fn at(seconds: i64) -> Time {
    Time { seconds, nanos: 0 }
}

fn sample(seconds: i64) -> Sample {
    Sample {
        time: at(seconds),
        used: format!("{}", 10 + seconds),
        reset: None,
    }
}

#[test]
fn selected_unpriced_usage_has_no_invented_zero_subtotal() {
    let mut selected = SelectedQuota::new(at(0), at(4));
    for seconds in 1..=3 {
        let s = sample(seconds);
        selected
            .push(
                Some(&s),
                s.time,
                None,
                &Cost {
                    known_subtotal: None,
                    complete: false,
                    accepted_observations: 1,
                },
            )
            .unwrap();
    }
    let result = selected.finish(None).unwrap();
    match &result.segments[0] {
        Interval::Matched { cost, .. } => {
            assert!(cost.known_subtotal.is_none());
            assert_eq!(cost.accepted_observations, 2);
        }
        Interval::Unavailable(_) => panic!("a segment with three samples has an interval"),
    }
}

#[test]
fn window_segments_close_at_boundaries_and_ignore_earlier_samples() {
    let priced = |amount: &str| Cost {
        known_subtotal: Some(amount.into()),
        complete: true,
        accepted_observations: 1,
    };
    let mut selected = SelectedQuota::new(at(10), at(2000));
    assert_eq!(selected.recent_start, at(1100));
    selected.push(Some(&sample(5)), at(5), None, &priced("7")).unwrap();
    assert!(selected.last_time().is_none());
    selected.push(Some(&sample(20)), at(20), None, &priced("7")).unwrap();
    selected.push(Some(&sample(30)), at(30), None, &priced("8")).unwrap();
    selected
        .push(Some(&sample(40)), at(40), Some(BoundaryKind::Reset), &priced("9"))
        .unwrap();
    selected.push(Some(&sample(1500)), at(1500), None, &priced("2")).unwrap();
    assert!(selected
        .push(Some(&sample(1600)), at(1600), None, &priced("x"))
        .is_err());
    assert_eq!(selected.last_time(), Some(at(1500)));
    selected.push(Some(&sample(1700)), at(1700), None, &priced("3")).unwrap();
    let result = selected.finish(None).unwrap();
    assert_eq!(result.total_segments, 2);
    match &result.segments[0] {
        Interval::Matched { first, last, cost } => {
            assert_eq!(first.time, at(20));
            assert_eq!(last.time, at(30));
            assert_eq!(cost.known_subtotal.as_deref(), Some("8"));
            assert!(cost.complete);
        }
        Interval::Unavailable(_) => panic!("the first segment has two samples"),
    }
    match &result.segments[1] {
        Interval::Matched { cost, .. } => assert_eq!(cost.known_subtotal.as_deref(), Some("5")),
        Interval::Unavailable(_) => panic!("the second segment has two samples"),
    }
    match &result.recent {
        Interval::Matched { first, .. } => assert_eq!(first.time, at(1500)),
        Interval::Unavailable(_) => panic!("the recent segment has two samples"),
    }
}
