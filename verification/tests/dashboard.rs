use codex_usage::dashboard::{BoundaryKind, BreakdownMetric, Downsample, Point, Query, Range};
use codex_usage::weekly::{Cost, ReadError, Time};

#[test]
fn dashboard_range_boundaries_are_exact() {
    let now = Time {
        seconds: 10_000_000,
        nanos: 7,
    };
    for (range, days) in [
        (Range::Last24Hours, 1),
        (Range::Last7Days, 7),
        (Range::Last30Days, 30),
    ] {
        assert_eq!(
            Query {
                range,
                point_budget: None,
                breakdown_metric: Default::default(),
            }
            .start(now, None, None),
            Time {
                seconds: now.seconds - days * 86400,
                nanos: 7
            }
        );
    }
}

#[test]
fn dashboard_cycle_and_all_ranges_fall_back_to_now() {
    let now = Time { seconds: 500, nanos: 1 };
    let cycle = Time { seconds: 100, nanos: 2 };
    let query = |range| Query { range, point_budget: None, breakdown_metric: BreakdownMetric::Tokens };
    assert_eq!(query(Range::CurrentCycle).start(now, Some(cycle), None), cycle);
    assert_eq!(query(Range::CurrentCycle).start(now, None, Some(cycle)), now);
    assert_eq!(query(Range::All).start(now, None, Some(cycle)), cycle);
    assert_eq!(query(Range::All).start(now, Some(cycle), None), now);
    let early = Time { seconds: i64::MIN + 5, nanos: 3 };
    assert_eq!(
        query(Range::Last24Hours).start(early, None, None),
        Time { seconds: i64::MIN, nanos: 3 }
    );
}

#[test]
fn dashboard_point_budget_yields_an_eighth_as_bins() {
    let query = |point_budget| Query { range: Range::All, point_budget, breakdown_metric: BreakdownMetric::Cost };
    assert_eq!(query(None).validate(), Ok(512));
    assert_eq!(query(Some(8)).validate(), Ok(1));
    assert_eq!(query(Some(100)).validate(), Ok(12));
    assert_eq!(query(Some(7)).validate(), Err(ReadError::InvalidQuery));
    assert_eq!(query(Some(4097)).validate(), Err(ReadError::InvalidQuery));
    assert_eq!(BreakdownMetric::default(), BreakdownMetric::Tokens);
}

#[test]
fn dashboard_downsampling_retains_actual_extrema_and_caps_boundary_overload() {
    let start = Time {
        seconds: 0,
        nanos: 0,
    };
    let end = Time {
        seconds: 99,
        nanos: 0,
    };
    let mut sample = Downsample::new(Range::All, start, end, 1);
    for index in 0..100 {
        let used = if index == 25 {
            "99"
        } else if index == 26 {
            "0"
        } else {
            "50"
        };
        let amount = if index == 40 {
            "9000000000000"
        } else if index == 41 {
            "1"
        } else {
            "1000000000000"
        };
        let ratio = if index == 60 {
            "9.000000000001"
        } else if index == 61 {
            "0.000000000001"
        } else {
            "1.000000000000"
        };
        sample.push(
            Point {
                time: Time {
                    seconds: index,
                    nanos: 0,
                },
                segment_id: Some("segment".into()),
                weekly_used_percent: Some(used.into()),
                cumulative_estimated_cost: Some(Cost {
                    known_subtotal: Some(amount.into()),
                    complete: true,
                    accepted_observations: 1,
                }),
                effective_usd_per_percent: Some(ratio.into()),
                unavailable_reason: None,
                connect_from_previous: false,
            },
            if index % 2 == 0 { Some(BoundaryKind::Reset) } else { None },
        );
    }
    let chart = sample.finish();
    assert_eq!(
        chart
            .points
            .iter()
            .map(|point| point.time.seconds)
            .collect::<Vec<_>>(),
        [0, 25, 26, 40, 41, 60, 61, 99]
    );
    assert_eq!(chart.source_observation_count, 100);
    assert_eq!(chart.returned_observation_count, 8);
    assert_eq!(chart.boundaries.len(), 1);
    assert_eq!(chart.boundaries[0].count, 50);
    assert!(chart.boundaries[0].overloaded);
    assert!(chart
        .points
        .iter()
        .all(|point| !point.connect_from_previous));
    for budget in [0, 7, 4097, u32::MAX] {
        assert_eq!(
            Query {
                range: Range::All,
                point_budget: Some(budget),
                breakdown_metric: Default::default(),
            }
            .validate(),
            Err(ReadError::InvalidQuery)
        );
    }
    assert_eq!(
        Query {
            range: Range::All,
            point_budget: None,
            breakdown_metric: Default::default(),
        }
        .validate(),
        Ok(512)
    );
    assert_eq!(
        Query {
            range: Range::All,
            point_budget: Some(15),
            breakdown_metric: Default::default(),
        }
        .validate(),
        Ok(1)
    );
}

#[test]
fn downsampled_points_join_within_a_segment_and_skip_unparsed_values() {
    let start = Time { seconds: 0, nanos: 0 };
    let end = Time { seconds: 7, nanos: 0 };
    let mut sample = Downsample::new(Range::All, start, end, 2);
    let point = |seconds: i64, used: Option<&str>| Point {
        time: Time { seconds, nanos: 0 },
        segment_id: Some("a".into()),
        weekly_used_percent: used.map(|u| u.to_string()),
        cumulative_estimated_cost: None,
        effective_usd_per_percent: None,
        unavailable_reason: None,
        connect_from_previous: false,
    };
    sample.push(point(0, Some("5")), None);
    sample.push(point(1, Some("not a number")), None);
    sample.push(point(2, Some("1e-3")), None);
    sample.push(point(3, None), None);
    sample.push(point(5, Some("2")), None);
    sample.push(point(8, Some("0")), None);
    let chart = sample.finish();
    assert_eq!(chart.source_observation_count, 5);
    assert_eq!(chart.bin_count, 2);
    assert_eq!(
        chart.points.iter().map(|p| p.time.seconds).collect::<Vec<_>>(),
        [0, 2, 3, 5]
    );
    assert_eq!(
        chart.points.iter().map(|p| p.connect_from_previous).collect::<Vec<_>>(),
        [false, true, true, true]
    );
    assert!(chart.boundaries.is_empty());
}
