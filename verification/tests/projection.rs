use codex_usage::dashboard::{BoundaryKind, Projection};
use codex_usage::storage::dashboard::range_quota::Sample;
use codex_usage::weekly::{Cost, Estimate, ReadError, Time, Unavailable};

fn at(seconds: i64) -> Time {
    Time { seconds, nanos: 0 }
}

fn sample(seconds: i64, used: &str) -> Sample {
    Sample { time: at(seconds), used: used.to_string(), reset: None }
}

fn cost(subtotal: Option<&str>, complete: bool, accepted: u64) -> Cost {
    Cost { known_subtotal: subtotal.map(str::to_string), complete, accepted_observations: accepted }
}

fn estimate(usd: &str) -> Estimate {
    Estimate {
        start: None,
        end: None,
        consumed_percentage_points: None,
        estimated_cost: None,
        effective_usd_per_percent: Some(usd.to_string()),
        estimated_full_week_usd: None,
        unavailable_reason: None,
    }
}

#[test]
fn projection_first_point_starts_a_segment() {
    let mut projection = Projection::new();
    let first = sample(100, "10");
    let (point, boundary) = projection
        .push(false, Some(&first), Some(at(50)), None, at(100), cost(Some("5"), true, 1), None)
        .unwrap();
    assert_eq!(boundary, Some(BoundaryKind::ObservationStart));
    assert_eq!(point.time, at(100));
    assert_eq!(point.segment_id.as_deref(), Some("100:000000000"));
    assert_eq!(point.weekly_used_percent.as_deref(), Some("10"));
    let total = point.cumulative_estimated_cost.unwrap();
    assert_eq!(total.known_subtotal.as_deref(), Some("0"));
    assert!(total.complete);
    assert_eq!(total.accepted_observations, 0);
    assert_eq!(point.effective_usd_per_percent, None);
    assert_eq!(point.unavailable_reason, Some(Unavailable::InsufficientObservations));
    assert!(!point.connect_from_previous);
}

#[test]
fn projection_reset_cycle_opens_reset_boundary() {
    let mut projection = Projection::new();
    let first = sample(200, "0");
    let (_, boundary) = projection
        .push(false, Some(&first), Some(at(200)), Some(at(200)), at(200), cost(None, true, 0), None)
        .unwrap();
    assert_eq!(boundary, Some(BoundaryKind::Reset));
}

#[test]
fn projection_accumulates_cost_within_a_segment() {
    let mut projection = Projection::new();
    let first = sample(100, "10");
    projection.push(false, Some(&first), Some(at(50)), None, at(100), cost(None, true, 0), None).unwrap();
    let second = sample(160, "12");
    let (point, boundary) = projection
        .push(false, Some(&second), Some(at(50)), None, at(160), cost(Some("700"), true, 2), Some(estimate("3.5")))
        .unwrap();
    assert_eq!(boundary, None);
    assert_eq!(point.segment_id.as_deref(), Some("100:000000000"));
    let total = point.cumulative_estimated_cost.unwrap();
    assert_eq!(total.known_subtotal.as_deref(), Some("700"));
    assert_eq!(total.accepted_observations, 2);
    assert_eq!(point.effective_usd_per_percent.as_deref(), Some("3.5"));
    assert_eq!(point.unavailable_reason, None);
    let third = sample(220, "15");
    let (point, boundary) = projection
        .push(false, Some(&third), Some(at(50)), None, at(220), cost(Some("-200"), true, 1), Some(estimate("2")))
        .unwrap();
    assert_eq!(boundary, None);
    let total = point.cumulative_estimated_cost.unwrap();
    assert_eq!(total.known_subtotal.as_deref(), Some("500"));
    assert_eq!(total.accepted_observations, 3);
    assert_eq!(projection.amount, 500);
}

#[test]
fn projection_unpriced_usage_restarts_the_segment() {
    let mut projection = Projection::new();
    let first = sample(100, "10");
    projection.push(false, Some(&first), Some(at(50)), None, at(100), cost(None, true, 0), None).unwrap();
    let second = sample(160, "12");
    let (point, boundary) = projection
        .push(false, Some(&second), Some(at(50)), None, at(160), cost(None, false, 1), None)
        .unwrap();
    assert_eq!(boundary, Some(BoundaryKind::UnpricedUsage));
    assert_eq!(point.segment_id.as_deref(), Some("160:000000000"));
    let total = point.cumulative_estimated_cost.unwrap();
    assert!(!total.complete);
    assert_eq!(total.known_subtotal, None);
    assert_eq!(total.accepted_observations, 1);
    assert_eq!(point.unavailable_reason, Some(Unavailable::UnpricedUsage));
    let third = sample(220, "14");
    let (point, boundary) = projection
        .push(false, Some(&third), Some(at(50)), None, at(220), cost(Some("9"), true, 1), None)
        .unwrap();
    assert_eq!(boundary, Some(BoundaryKind::PricedUsageResumed));
    assert_eq!(point.segment_id.as_deref(), Some("220:000000000"));
    let total = point.cumulative_estimated_cost.unwrap();
    assert!(total.complete);
    assert_eq!(total.known_subtotal.as_deref(), Some("0"));
    assert_eq!(total.accepted_observations, 0);
}

#[test]
fn projection_new_baseline_restarts_the_segment() {
    let mut projection = Projection::new();
    let first = sample(100, "10");
    projection.push(false, Some(&first), Some(at(50)), None, at(100), cost(None, true, 0), None).unwrap();
    let second = sample(700, "1");
    let (point, boundary) = projection
        .push(false, Some(&second), Some(at(600)), None, at(700), cost(Some("40"), true, 1), None)
        .unwrap();
    assert_eq!(boundary, Some(BoundaryKind::ObservationStart));
    assert_eq!(point.segment_id.as_deref(), Some("700:000000000"));
    assert_eq!(point.cumulative_estimated_cost.unwrap().known_subtotal.as_deref(), Some("0"));
}

#[test]
fn projection_ambiguous_point_is_blank() {
    let mut projection = Projection::new();
    let first = sample(100, "10");
    projection.push(false, Some(&first), Some(at(50)), None, at(100), cost(None, true, 0), None).unwrap();
    let (point, boundary) =
        projection.push(true, None, None, None, at(160), cost(Some("3"), true, 1), None).unwrap();
    assert_eq!(boundary, Some(BoundaryKind::AmbiguousObservation));
    assert_eq!(point.segment_id, None);
    assert_eq!(point.weekly_used_percent, None);
    assert!(point.cumulative_estimated_cost.is_none());
    assert_eq!(point.unavailable_reason, Some(Unavailable::AmbiguousObservation));
    let third = sample(220, "14");
    let (_, boundary) = projection
        .push(false, Some(&third), Some(at(50)), None, at(220), cost(None, true, 0), None)
        .unwrap();
    assert_eq!(boundary, Some(BoundaryKind::ObservationStart));
}

#[test]
fn projection_refuses_missing_or_unreadable_input() {
    let mut projection = Projection::new();
    assert_eq!(
        projection.push(false, None, Some(at(50)), None, at(100), cost(None, true, 0), None).err(),
        Some(ReadError::Storage)
    );
    let first = sample(100, "10");
    projection.push(false, Some(&first), Some(at(50)), None, at(100), cost(None, true, 0), None).unwrap();
    let second = sample(160, "12");
    assert_eq!(
        projection
            .push(false, Some(&second), Some(at(50)), None, at(160), cost(Some("1.5"), true, 1), Some(estimate("1")))
            .err(),
        Some(ReadError::Storage)
    );
    assert_eq!(
        projection.push(false, Some(&second), Some(at(50)), None, at(160), cost(Some("3"), true, 1), None).err(),
        Some(ReadError::Storage)
    );
    assert_eq!(projection.amount, 0);
    assert_eq!(projection.accepted, 0);
}
