use codex_usage::aggregates::session_detail::{copy_point, BoundaryKind, Downsample, Point};
use codex_usage::aggregates::{Category, EstimatedCost};
use codex_usage::weekly::Time;

fn point(seconds: i64, segment: Option<u64>) -> Point {
    Point {
        time: Time { seconds, nanos: 0 },
        cumulative_total_tokens: Category { known_tokens: Some(seconds.to_string()), complete: true },
        cumulative_estimated_cost: EstimatedCost { known_subtotal: None, complete: false },
        tokens_connect_from_previous: false,
        cost_connect_from_previous: false,
        segments: [segment, None],
    }
}

#[test]
fn downsampling_keeps_bin_endpoints_and_joins_one_segment() {
    let start = Time { seconds: 0, nanos: 0 };
    let end = Time { seconds: 100, nanos: 0 };
    let mut chart = Downsample::new(start, end, 8);
    assert_eq!(chart.bins.len(), 4);
    assert_eq!(chart.index(Time { seconds: 0, nanos: 0 }), 0);
    assert_eq!(chart.index(Time { seconds: 26, nanos: 0 }), 1);
    assert_eq!(chart.index(Time { seconds: 100, nanos: 0 }), 3);
    chart.push(point(0, Some(0)), vec![BoundaryKind::ObservationStart]);
    chart.push(point(5, Some(0)), Vec::new());
    chart.push(point(10, Some(0)), Vec::new());
    chart.push(point(60, Some(0)), Vec::new());
    let (points, boundaries) = chart.finish();
    let times: Vec<i64> = points.iter().map(|p| p.time.seconds).collect();
    assert_eq!(times, vec![0, 10, 60]);
    assert!(!points[0].tokens_connect_from_previous);
    assert!(points[1].tokens_connect_from_previous);
    assert!(points[2].tokens_connect_from_previous);
    assert!(!points[1].cost_connect_from_previous);
    assert_eq!(boundaries.len(), 1);
    assert_eq!(boundaries[0].kinds, vec![BoundaryKind::ObservationStart]);
    assert!(!boundaries[0].overloaded);
}

#[test]
fn overloaded_bins_break_continuity_across_their_edges() {
    let start = Time { seconds: 0, nanos: 0 };
    let end = Time { seconds: 100, nanos: 0 };
    let mut chart = Downsample::new(start, end, 8);
    chart.push(point(1, Some(0)), vec![BoundaryKind::ObservationStart]);
    chart.push(point(2, Some(1)), vec![BoundaryKind::MissingTokens, BoundaryKind::ObservationStart]);
    chart.push(point(30, Some(1)), Vec::new());
    let (points, boundaries) = chart.finish();
    assert_eq!(boundaries[0].count, 2);
    assert!(boundaries[0].overloaded);
    assert_eq!(boundaries[0].kinds, vec![BoundaryKind::ObservationStart, BoundaryKind::MissingTokens]);
    assert_eq!(boundaries[0].first_time.seconds, 1);
    assert_eq!(boundaries[0].last_time.seconds, 2);
    // Within and right after the overloaded bin nothing is joined.
    assert!(points.iter().all(|p| !p.tokens_connect_from_previous));
    let copy = copy_point(&points[0]);
    assert_eq!(copy.time, points[0].time);
    assert_eq!(copy.cumulative_total_tokens, points[0].cumulative_total_tokens);
}
