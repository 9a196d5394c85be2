use codex_usage::adapter::{Counter, Tokens};
use codex_usage::pricing::{CacheWritePolicy, PriceInput, Rates, ReasoningPolicy};
use codex_usage::storage::dashboard::quota::hypotheses::{components, Hypotheses};

fn tokens() -> Tokens {
    Tokens {
        input_tokens: Counter::Known(100),
        cached_input_tokens: Counter::Known(20),
        cache_write_input_tokens: Counter::Known(10),
        output_tokens: Counter::Known(50),
        reasoning_output_tokens: Counter::Known(15),
        total_tokens: Counter::Missing,
    }
}

fn rates(separate: bool) -> Rates {
    PriceInput {
        input: "2".into(),
        cached_input: "0.5".into(),
        cache_write: "3".into(),
        output: "4".into(),
        reasoning: separate.then(|| "6".into()),
        reasoning_policy: if separate {
            ReasoningPolicy::Separate
        } else {
            ReasoningPolicy::Included
        },
        cache_write_policy: CacheWritePolicy::Additional,
    }
    .validate()
    .unwrap()
}

#[test]
fn eight_unique_compositions_both_write_interpretations_and_model_component_prices() {
    let mut values = Hypotheses::default();
    values.add(&tokens(), Some(&rates(true)));
    let rows = values.finish();
    // Baseline 80 input + 35 visible output; cached 20, writes 10, reasoning 15.
    let expected_tokens = [115, 135, 125, 145, 130, 150, 140, 160];
    let expected_usd_units = [300, 310, 330, 340, 390, 400, 420, 430];
    for mask in 0..8 {
        for included in [false, true] {
            let row = &rows[mask + if included { 8 } else { 0 }];
            assert_eq!(row.mask, mask as u8);
            assert_eq!(row.writes_included, included);
            assert_eq!(
                row.tokens,
                Some((expected_tokens[mask] - if included { 10 } else { 0 }).to_string())
            );
            assert_eq!(
                row.estimated_usd,
                Some(
                    ((expected_usd_units[mask] - if included { 20 } else { 0 }) * 1_000_000i64)
                        .to_string()
                )
            );
        }
    }
    let mut fallback = Hypotheses::default();
    fallback.add(&tokens(), Some(&rates(false)));
    assert_eq!(
        fallback.finish()[7].estimated_usd.as_deref(),
        Some("400000000")
    );
}

#[test]
fn missing_and_invalid_counters_never_cancel_across_observations() {
    for field in 0..5 {
        let mut usage = tokens();
        match field {
            0 => usage.input_tokens = Counter::Missing,
            1 => usage.cached_input_tokens = Counter::Null,
            2 => usage.cache_write_input_tokens = Counter::Missing,
            3 => usage.output_tokens = Counter::Missing,
            _ => usage.reasoning_output_tokens = Counter::Missing,
        };
        let mut values = Hypotheses::default();
        values.add(&usage, Some(&rates(true)));
        assert!(values.finish()[7].tokens.is_none());
    }
    for usage in [
        Tokens {
            cached_input_tokens: Counter::Known(101),
            ..tokens()
        },
        Tokens {
            reasoning_output_tokens: Counter::Known(51),
            ..tokens()
        },
    ] {
        let mut values = Hypotheses::default();
        values.add(&usage, Some(&rates(true)));
        values.add(&tokens(), Some(&rates(true)));
        assert!(values
            .finish()
            .iter()
            .all(|row| row.tokens.is_none() && row.estimated_usd.is_none()));
    }
    let mut values = Hypotheses::default();
    values.add(
        &Tokens {
            cache_write_input_tokens: Counter::Known(81),
            ..tokens()
        },
        Some(&rates(true)),
    );
    assert!(values.finish()[0].tokens.is_some());
    assert!(values.finish()[8].tokens.is_none());
}

#[test]
fn unpriced_usage_suppresses_money_but_retains_tokens() {
    let mut values = Hypotheses::default();
    values.add(&tokens(), Some(&rates(true)));
    values.add(&tokens(), None);
    assert!(values.finish().iter().all(|row| row.tokens.is_some()
        && row.estimated_usd.is_none()
        && row.price_reason.is_some()));
    assert!(Hypotheses::default()
        .finish()
        .iter()
        .all(|row| row.tokens.is_none() && row.estimated_usd.is_none()));
}

#[test]
fn components_report_each_subset_failure() {
    assert_eq!(components(&tokens(), 7, true), Ok([70, 20, 10, 35, 15]));
    assert_eq!(components(&tokens(), 0, false), Ok([80, 0, 0, 35, 0]));
    let negative = Tokens { input_tokens: Counter::Known(-1), ..tokens() };
    assert_eq!(components(&negative, 0, false), Err("Missing token counters"));
    let over = Tokens { cache_write_input_tokens: Counter::Known(81), ..tokens() };
    assert_eq!(components(&over, 0, true), Err("Invalid input subset subtraction"));
    let output = Tokens { reasoning_output_tokens: Counter::Known(51), ..tokens() };
    assert_eq!(components(&output, 0, false), Err("Invalid output subset subtraction"));
    // Writes are not read when neither included nor selected.
    let no_writes = Tokens { cache_write_input_tokens: Counter::Null, ..tokens() };
    assert_eq!(components(&no_writes, 5, false), Ok([80, 20, 0, 35, 15]));
    let mut values = Hypotheses::default();
    values.add(&no_writes, None);
    let rows = values.finish();
    assert_eq!(rows[5].tokens.as_deref(), Some("150"));
    assert_eq!(rows[5].price_reason, Some("Unpriced usage: no applicable model price"));
    assert_eq!(rows[2].token_reason, Some("Missing token counters"));
}
