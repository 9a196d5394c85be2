use codex_usage::adapter::{Counter, Tokens};
use codex_usage::pricing::{CacheWritePolicy, Error, PriceInput, ReasoningPolicy};
use codex_usage::storage::pricing::{
    catalog_page, detectable, refusal, save_check, select_version, storage_failure, valuation_amount,
    DetectedModel, PriceVersion,
};

fn price() -> PriceInput {
    PriceInput {
        input: "2".into(),
        cached_input: "0.5".into(),
        cache_write: "3".into(),
        output: "4".into(),
        reasoning: None,
        reasoning_policy: ReasoningPolicy::Included,
        cache_write_policy: CacheWritePolicy::Additional,
    }
}

fn version(id: i64, backfill_before: bool) -> PriceVersion {
    PriceVersion {
        id,
        model: "m".into(),
        effective_seconds: 10,
        effective_nanos: 0,
        backfill_before,
        configuration: price(),
    }
}

#[test]
fn blank_model_names_are_not_detected() {
    assert!(detectable(Some("gpt")));
    assert!(detectable(Some("  gpt ")));
    assert!(!detectable(Some(" \t\u{3000}")));
    assert!(!detectable(Some("")));
    assert!(!detectable(None));
}

#[test]
fn price_versions_move_forward_and_only_the_first_backfills() {
    assert!(save_check(&price(), true, None, (10, 0), true).is_ok());
    assert_eq!(
        save_check(&price(), false, None, (10, 0), false).unwrap_err(),
        Error::UnknownModel
    );
    assert_eq!(
        save_check(&price(), true, Some((10, 0)), (10, 0), false).unwrap_err(),
        Error::Clock
    );
    assert_eq!(
        save_check(&price(), true, None, (10, 1_000_000_000), false).unwrap_err(),
        Error::Clock
    );
    assert_eq!(
        save_check(&price(), true, Some((9, 999)), (10, 0), true).unwrap_err(),
        Error::BackfillOnlyFirst
    );
    assert!(save_check(&price(), true, Some((9, 999)), (10, 0), false).is_ok());
    let mut invalid = price();
    invalid.input = "-1".into();
    assert!(save_check(&invalid, false, None, (10, 0), false).is_err());
}

#[test]
fn valuations_use_the_effective_or_a_backfilling_first_version() {
    assert_eq!(select_version(Some(version(2, false)), Some(version(1, true))).unwrap().id, 2);
    assert_eq!(select_version(None, Some(version(1, true))).unwrap().id, 1);
    assert!(select_version(None, Some(version(1, false))).is_none());
    let tokens = Tokens {
        input_tokens: Counter::Known(1_000_000),
        cached_input_tokens: Counter::Known(0),
        cache_write_input_tokens: Counter::Known(0),
        output_tokens: Counter::Known(0),
        reasoning_output_tokens: Counter::Known(0),
        total_tokens: Counter::Known(1_000_000),
    };
    assert_eq!(
        valuation_amount(&price(), &tokens).unwrap(),
        Some(String::from("2000000000000"))
    );
    let missing = Tokens {
        input_tokens: Counter::Null,
        ..tokens.clone()
    };
    assert_eq!(valuation_amount(&price(), &missing).unwrap(), None);
}

#[test]
fn pricing_failures_name_their_code_and_field() {
    use_refusals();
}

fn use_refusals() {
    let invalid = refusal(Error::InvalidRate { field: "input" });
    assert_eq!(invalid.code, "invalid_rate");
    assert_eq!(invalid.field, Some("input"));
    assert_eq!(invalid.message, Error::InvalidRate { field: "input" }.message());
    let backfill = refusal(Error::BackfillOnlyFirst);
    assert_eq!((backfill.code, backfill.field), ("backfill_only_first", Some("backfillBefore")));
    assert_eq!(refusal(Error::Overflow).code, "invalid_configuration");
    assert_eq!(storage_failure().code, "storage");
    let page = catalog_page(vec![]);
    assert!(page.next_cursor.is_none());
    let models: Vec<DetectedModel> = (0..64)
        .map(|n| DetectedModel {
            model: format!("m{n:02}"),
            latest_price: None,
        })
        .collect();
    assert_eq!(catalog_page(models).next_cursor.as_deref(), Some("m63"));
}
