use codex_usage::dashboard::BreakdownMetric;
use codex_usage::storage::dashboard::usage::{breakdown_rows, Group};
use codex_usage::weekly::ReadError;

fn group(id: &str, accepted: i64, total: Option<i64>, amount: Option<i128>, priced: i64) -> Group {
    Group {
        id: id.to_string(),
        accepted,
        total,
        known: if total.is_some() { accepted } else { 0 },
        amount,
        priced,
    }
}

fn groups() -> Vec<Group> {
    vec![
        group("model:a", 1, Some(10), Some(400), 1),
        group("model:b", 2, Some(50), Some(100), 2),
        group("unknown:", 1, Some(3), None, 0),
        group("model:c", 1, Some(50), Some(900), 1),
        group("model:d", 1, Some(5), Some(50), 1),
        group("model:e", 3, Some(70), None, 0),
        group("model:f", 2, None, Some(7), 1),
        group("model:g", 1, Some(20), Some(30), 1),
        group("unknown:", 2, Some(4), Some(5), 2),
        group("model:h", 1, Some(1), Some(2), 1),
    ]
}

#[test]
fn breakdown_keeps_five_leaders_then_unknown_then_other_by_tokens() {
    let rows = breakdown_rows(groups(), BreakdownMetric::Tokens, true).unwrap();
    let keys: Vec<&str> = rows.iter().map(|row| row.key.as_str()).collect();
    assert_eq!(keys, ["model:e", "model:b", "model:c", "model:g", "model:a", "unknown:", "other:"]);
    assert_eq!(rows[0].label, "e");
    assert_eq!(rows[0].kind, "model");
    assert_eq!(rows[5].label, "Unknown model");
    assert_eq!(rows[6].label, "Other models");
    assert_eq!(rows[6].kind, "other");
    assert_eq!(rows[5].tokens.known_tokens.as_deref(), Some("7"));
    assert!(rows[5].tokens.complete);
    assert_eq!(rows[5].estimated_cost.known_subtotal.as_deref(), Some("5"));
    assert!(!rows[5].estimated_cost.complete);
    // The folded remainder conserves the remaining groups exactly: d, h and f.
    assert_eq!(rows[6].tokens.known_tokens.as_deref(), Some("6"));
    assert!(!rows[6].tokens.complete);
    assert_eq!(rows[6].estimated_cost.known_subtotal.as_deref(), Some("59"));
    assert!(!rows[6].estimated_cost.complete);
    assert_eq!(rows[0].estimated_cost.known_subtotal, None);
}

#[test]
fn breakdown_ranks_by_cost_with_unpriced_groups_last() {
    let rows = breakdown_rows(groups(), BreakdownMetric::Cost, false).unwrap();
    let keys: Vec<&str> = rows.iter().map(|row| row.key.as_str()).collect();
    assert_eq!(keys, ["model:c", "model:a", "model:b", "model:d", "model:g", "unknown:", "other:"]);
    assert_eq!(rows[5].label, "Unattributed project");
    assert_eq!(rows[6].label, "Other projects");
    assert_eq!(rows[6].estimated_cost.known_subtotal.as_deref(), Some("9"));
    assert_eq!(rows[6].tokens.known_tokens.as_deref(), Some("71"));
}

#[test]
fn breakdown_without_remainder_or_unknown() {
    let rows = breakdown_rows(
        vec![group("model:x", 1, Some(5), Some(5), 1), group("model:y", 1, Some(9), Some(1), 1)],
        BreakdownMetric::Tokens,
        true,
    )
    .unwrap();
    let keys: Vec<&str> = rows.iter().map(|row| row.key.as_str()).collect();
    assert_eq!(keys, ["model:y", "model:x"]);
    assert!(breakdown_rows(Vec::new(), BreakdownMetric::Cost, true).unwrap().is_empty());
}

#[test]
fn breakdown_refuses_an_overflowing_fold() {
    let mut many = Vec::new();
    for name in ["a", "b", "c", "d", "e", "f", "g"] {
        many.push(group(&format!("model:{name}"), 1, Some(i64::MAX), Some(1), 1));
    }
    assert_eq!(breakdown_rows(many, BreakdownMetric::Tokens, true).err(), Some(ReadError::Storage));
}
