use codex_usage::adapter::{Counter, Tokens, Usage};
use codex_usage::calls::{Cursor, Query, Window};
use codex_usage::pricing::{CacheWritePolicy, PriceInput, ReasoningPolicy};
use codex_usage::storage::calls::{accept_query, call, raw_tokens, select, Sum, Totals};
use codex_usage::weekly::{ReadError, Time};

fn tokens() -> Tokens {
    Tokens {
        input_tokens: Counter::Known(100),
        cached_input_tokens: Counter::Known(20),
        cache_write_input_tokens: Counter::Known(0),
        output_tokens: Counter::Known(50),
        reasoning_output_tokens: Counter::Known(15),
        total_tokens: Counter::Known(150),
    }
}

fn usage(turn: &str) -> Usage {
    Usage {
        thread_id: "thread".into(),
        session_id: None,
        turn_id: Some(turn.into()),
        root_turn_id: None,
        response_id: None,
        usage: tokens(),
        thread_token_usage: tokens(),
    }
}

fn price() -> PriceInput {
    PriceInput {
        input: "2".into(),
        cached_input: "0.5".into(),
        cache_write: "3".into(),
        output: "4".into(),
        reasoning: None,
        reasoning_policy: ReasoningPolicy::Included,
        cache_write_policy: CacheWritePolicy::Additional,
    }
}

fn at(seconds: i64) -> Time {
    Time { seconds, nanos: 0 }
}

#[test]
fn priced_call_splits_the_stored_amount_by_category() {
    // 80 * 2 + 20 * 0.5 + 0 * 3 + 50 * 4 = 370 micro-USD per million tokens.
    let c = call(7, at(10), "thread".into(), Some("r".into()), Some("m".into()), Some("high".into()),
        usage("t"), Some("370000000".into()), Some(3), Some(price())).unwrap();
    assert_eq!(c.id, "7");
    assert_eq!(c.price_version_id.as_deref(), Some("3"));
    assert_eq!(c.categories.input.tokens.known_tokens.as_deref(), Some("80"));
    assert_eq!(c.categories.input.estimated_cost.known_subtotal.as_deref(), Some("160000000"));
    assert_eq!(c.categories.cached_input.estimated_cost.known_subtotal.as_deref(), Some("10000000"));
    assert_eq!(c.categories.output.tokens.known_tokens.as_deref(), Some("50"));
    assert_eq!(c.categories.output.estimated_cost.known_subtotal.as_deref(), Some("200000000"));
    assert_eq!(c.category_reason, None);
    assert_eq!(c.tokens.total_tokens.known_tokens.as_deref(), Some("150"));
    assert_eq!(c.turn_id.as_deref(), Some("t"));
    assert_eq!(c.effort.as_deref(), Some("high"));
}

#[test]
fn mismatched_amount_or_missing_price_leaves_no_split() {
    let c = call(1, at(10), "thread".into(), None, None, None, usage("t"), Some("1".into()), None, Some(price())).unwrap();
    assert_eq!(c.category_reason, Some("No preserved price or usable category split for this invocation"));
    assert!(c.categories.input.estimated_cost.known_subtotal.is_none());
    assert_eq!(c.categories.input.tokens.known_tokens.as_deref(), Some("80"));
    let unpriced = call(1, at(10), "thread".into(), None, None, Some("x".repeat(65)), usage("t"), None, None, None).unwrap();
    // Without a price, input falls back to input less cached when no writes were recorded.
    assert_eq!(unpriced.categories.input.tokens.known_tokens.as_deref(), Some("80"));
    assert_eq!(unpriced.categories.output.tokens.known_tokens.as_deref(), Some("50"));
    assert!(!unpriced.estimated_cost.complete);
    assert_eq!(unpriced.effort, None);
    let broken = PriceInput { input: "-1".into(), ..price() };
    assert_eq!(
        call(1, at(10), "thread".into(), None, None, None, usage("t"), None, None, Some(broken)).unwrap_err(),
        ReadError::Storage
    );
}

#[test]
fn raw_tokens_keep_missing_and_null_apart_from_zero() {
    let mut t = tokens();
    t.cached_input_tokens = Counter::Null;
    t.total_tokens = Counter::Missing;
    let raw = raw_tokens(&t);
    assert_eq!(raw.cached_input_tokens.known_tokens, None);
    assert!(!raw.cached_input_tokens.complete);
    assert_eq!(raw.total_tokens.known_tokens, None);
    assert_eq!(raw.cache_write_tokens.known_tokens.as_deref(), Some("0"));
    assert!(raw.cache_write_tokens.complete);
}

#[test]
fn sums_report_known_values_and_completeness() {
    let mut sum = Sum::new();
    assert_eq!(sum.text().as_deref(), Some("0"));
    sum.add(None).unwrap();
    assert_eq!(sum.text(), None);
    sum.add(Some("12")).unwrap();
    sum.add(Some("-2")).unwrap();
    assert_eq!(sum.text().as_deref(), Some("10"));
    assert!(!sum.cost().complete);
    assert_eq!(sum.add(Some("x")), Err(ReadError::Storage));
    let mut top = Sum { value: i128::MAX, known: 1, count: 1 };
    assert_eq!(top.add(Some("1")), Err(ReadError::Storage));
}

fn query(limit: Option<u32>) -> Query {
    Query { start: at(0), end: at(100), model: None, thread: None, after: None, limit }
}

#[test]
fn pages_continue_after_the_cursor_and_totals_cover_every_call() {
    let calls = || {
        (1..=3)
            .map(|i| call(i, at(10 * i), "thread".into(), None, None, None, usage("t"), Some("370000000".into()), Some(1), Some(price())).unwrap())
            .collect::<Vec<_>>()
    };
    let first = select(&query(Some(2)), None, calls()).unwrap();
    assert_eq!(first.items.iter().map(|c| c.id.as_str()).collect::<Vec<_>>(), ["1", "2"]);
    assert_eq!(first.total_items, 3);
    assert_eq!(first.summary.estimated_cost.known_subtotal.as_deref(), Some("1110000000"));
    assert!(first.summary.estimated_cost.complete);
    assert_eq!(first.summary.categories.input.tokens.known_tokens.as_deref(), Some("240"));
    let cursor = first.next.clone().unwrap();
    assert_eq!((cursor.time, cursor.id), (at(20), 2));
    assert_eq!(accept_query(&query(Some(2)), Some(&cursor)), Ok(()));
    let second = select(&query(Some(2)), Some(&cursor), calls()).unwrap();
    assert_eq!(second.items.iter().map(|c| c.id.as_str()).collect::<Vec<_>>(), ["3"]);
    assert!(second.next.is_none());
    assert_eq!(second.total_items, 3);
}

#[test]
fn foreign_or_invalid_cursors_and_queries_are_refused() {
    let cursor = Cursor { window: Window { start: at(0), end: at(100) }, model: None, thread: None, time: at(20), id: 2 };
    let other = Cursor { model: Some("m".into()), ..cursor.clone() };
    assert_eq!(accept_query(&query(None), Some(&other)), Err(ReadError::InvalidQuery));
    let outside = Cursor { time: at(200), ..cursor.clone() };
    assert_eq!(accept_query(&query(None), Some(&outside)), Err(ReadError::InvalidQuery));
    let zero = Cursor { id: 0, ..cursor.clone() };
    assert_eq!(accept_query(&query(None), Some(&zero)), Err(ReadError::InvalidQuery));
    assert_eq!(accept_query(&query(Some(51)), None), Err(ReadError::InvalidQuery));
    let mut totals = Totals::new();
    let mut bad = call(1, at(10), "thread".into(), None, None, None, usage("t"), None, None, None).unwrap();
    bad.estimated_cost.known_subtotal = Some("not a number".into());
    assert_eq!(totals.add(&bad), Err(ReadError::Storage));
    assert_eq!(select(&query(None), None, vec![bad]).unwrap_err(), ReadError::Storage);
}
