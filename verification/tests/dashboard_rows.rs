use codex_usage::aggregates::{Category, Tokens};
use codex_usage::storage::dashboard::models::Row;
use codex_usage::storage::dashboard::quota::Totals;
use codex_usage::storage::dashboard::turns::{key, label, merge_bins, Point, Series};
use codex_usage::weekly::ReadError;

fn row(stored: i128, amounts: [i128; 4]) -> Row {
    let mut row = Row::new();
    row.sums = [Some(10), Some(6), None, Some(0), Some(4), Some(1)];
    row.known = [2, 2, 0, 2, 2, 2];
    row.accepted = 2;
    row.priced = 2;
    row.sessions = Some(1);
    row.stored = stored;
    row.split.amounts = amounts;
    row.split.observed = true;
    row
}

#[test]
fn model_rows_publish_a_split_only_when_it_reconciles() {
    let published = row(10, [1, 2, 3, 4]).finish("model:a".into(), "a".into(), "model");
    assert_eq!(published.estimated_cost.known_subtotal.as_deref(), Some("10"));
    assert!(published.estimated_cost.complete);
    assert_eq!(published.categories.output.as_deref(), Some("4"));
    assert_eq!(published.categories.reason, None);
    assert_eq!(published.tokens.total_tokens.known_tokens.as_deref(), Some("10"));
    assert!(published.tokens.total_tokens.complete);
    assert!(!published.tokens.cached_input_tokens.complete);
    assert_eq!(published.observed_sessions, Some(1));
    let withheld = row(11, [1, 2, 3, 4]).finish("model:a".into(), "a".into(), "model");
    assert_eq!(withheld.categories.reason, Some("Category split does not reconcile with the stored valuations"));
    assert_eq!(withheld.categories.input, None);
    let mut unpriced = row(0, [0, 0, 0, 0]);
    unpriced.priced = 0;
    let unpriced = unpriced.finish("model:b".into(), "b".into(), "model");
    assert_eq!(unpriced.categories.reason, Some("Unpriced usage: no applicable model price"));
    assert_eq!(unpriced.estimated_cost.known_subtotal, None);
    assert_eq!(Row::new().finish("k".into(), "l".into(), "other").categories.reason, Some("No local usage observations"));
}

#[test]
fn folded_model_rows_add_counts_and_drop_sessions() {
    let mut left = row(10, [1, 2, 3, 4]);
    left.merge(row(5, [1, 1, 1, 2]));
    assert_eq!(left.sums[0], Some(20));
    assert_eq!(left.sums[2], None);
    assert_eq!(left.known[0], 4);
    assert_eq!(left.accepted, 4);
    assert_eq!(left.stored, 15);
    assert_eq!(left.sessions, None);
    assert_eq!(left.split.amounts, [2, 3, 4, 6]);
    let mut top = row(i128::MAX, [0, 0, 0, 0]);
    top.sums[0] = Some(i64::MAX);
    top.merge(row(1, [0, 0, 0, 0]));
    assert_eq!(top.stored, i128::MAX);
    assert_eq!(top.sums[0], Some(i64::MAX));
}

fn category(value: Option<&str>, complete: bool) -> Category {
    Category { known_tokens: value.map(str::to_owned), complete }
}

fn tokens(total: Option<&str>) -> Tokens {
    Tokens {
        total_tokens: category(total, total.is_some()),
        input_tokens: category(Some("5"), true),
        cached_input_tokens: category(Some("1"), true),
        cache_write_tokens: category(None, false),
        output_tokens: category(Some("2"), true),
        reasoning_tokens: category(Some("0"), true),
    }
}

#[test]
fn quota_totals_report_only_categories_every_observation_knew() {
    let mut totals = Totals::new();
    assert_eq!(totals.finish().total_tokens.known_tokens, None);
    totals.add(tokens(Some("7"))).unwrap();
    totals.add(tokens(Some("340282366920938463463374607431768211000"))).unwrap();
    let finished = totals.finish();
    assert_eq!(finished.total_tokens.known_tokens.as_deref(), Some("340282366920938463463374607431768211007"));
    assert!(finished.total_tokens.complete);
    assert_eq!(finished.input_tokens.known_tokens.as_deref(), Some("10"));
    assert_eq!(finished.cache_write_tokens.known_tokens, None);
    assert!(!finished.cache_write_tokens.complete);
    assert_eq!(totals.add(tokens(Some("1000"))), Err(ReadError::Storage));
    let mut negative = Totals::new();
    assert_eq!(negative.add(tokens(Some("-1"))), Err(ReadError::Storage));
}

fn point(turns: u64, total: Option<i64>) -> Point {
    Point { turns, accepted: turns as i64, total, known: turns as i64, stored: 5, priced: turns as i64 }
}

#[test]
fn turn_series_keep_bins_ordered_and_add_shared_ones() {
    assert_eq!(key(Some("gpt"), Some("high")), "model:gpt|effort:high");
    assert_eq!(key(None, None), "unknown:|effort:");
    assert_eq!(label(Some("gpt"), None), "gpt \u{b7} reasoning unavailable");
    assert_eq!(label(None, Some("low")), "Unknown model \u{b7} low");
    let mut bins = vec![(1, point(1, Some(3))), (5, point(2, None))];
    merge_bins(&mut bins, &vec![(0, point(1, None)), (5, point(1, Some(4))), (9, point(3, Some(1)))]);
    let indices: Vec<u32> = bins.iter().map(|(i, _)| *i).collect();
    assert_eq!(indices, vec![0, 1, 5, 9]);
    assert_eq!(bins[2].1.turns, 3);
    assert_eq!(bins[2].1.total, Some(4));
    assert_eq!(bins[2].1.stored, 10);
    let mut series = Series { model: Some("gpt".into()), effort: None, totals: point(3, Some(3)), sessions: Some(2), points: vec![(1, point(3, Some(3)))] };
    let other = Series { model: None, effort: None, totals: point(1, Some(1)), sessions: Some(1), points: vec![(1, point(1, Some(1)))] };
    series.merge(other);
    assert_eq!(series.sessions, None);
    let shown = series.finish("other:".into(), "Other".into(), "other");
    assert_eq!(shown.turns, 4);
    assert_eq!(shown.points.len(), 1);
    assert_eq!(shown.points[0].turns, 4);
    assert_eq!(shown.points[0].tokens.known_tokens.as_deref(), Some("4"));
    assert_eq!(shown.estimated_cost.known_subtotal.as_deref(), Some("10"));
    assert!(shown.tokens.complete);
}
