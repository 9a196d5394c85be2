use codex_usage::adapter::{Counter, Tokens};
use codex_usage::pricing::{CacheWritePolicy, PriceInput, Rates, ReasoningPolicy};
use codex_usage::storage::dashboard::categories::Categories;

fn tokens() -> Tokens {
    Tokens {
        input_tokens: Counter::Known(100),
        cached_input_tokens: Counter::Known(20),
        cache_write_input_tokens: Counter::Known(10),
        output_tokens: Counter::Known(50),
        reasoning_output_tokens: Counter::Known(15),
        total_tokens: Counter::Known(150),
    }
}

fn rates(writes: CacheWritePolicy, separate: bool) -> Rates {
    PriceInput {
        input: "2".into(),
        cached_input: "0.5".into(),
        cache_write: "3".into(),
        output: "4".into(),
        reasoning: separate.then(|| "6".into()),
        reasoning_policy: if separate {
            ReasoningPolicy::Separate
        } else {
            ReasoningPolicy::Included
        },
        cache_write_policy: writes,
    }
    .validate()
    .unwrap()
}

#[test]
fn categories_follow_each_versions_policies_and_sum_across_observations() {
    let mut values = Categories::default();
    values.add(&tokens(), Some(&rates(CacheWritePolicy::Additional, false)));
    values.add(
        &tokens(),
        Some(&rates(CacheWritePolicy::IncludedInputDisjoint, true)),
    );
    let costs = values.finish();
    // (80 + 70) input, (20 + 20) cached, (10 + 10) writes, (200 + 140 + 90) output.
    assert_eq!(
        [
            costs.input.as_deref(),
            costs.cached_input.as_deref(),
            costs.cache_writes.as_deref(),
            costs.output.as_deref(),
            costs.reason,
        ],
        [
            Some("300000000"),
            Some("20000000"),
            Some("60000000"),
            Some("430000000"),
            None
        ]
    );
}

#[test]
fn unpriced_missing_or_invalid_usage_makes_every_category_unavailable() {
    let mut values = Categories::default();
    values.add(&tokens(), Some(&rates(CacheWritePolicy::Additional, false)));
    values.add(&tokens(), None);
    let costs = values.finish();
    assert!(costs.input.is_none() && costs.output.is_none());
    assert_eq!(
        costs.reason,
        Some("Unpriced usage: no applicable model price")
    );
    let mut values = Categories::default();
    values.add(
        &Tokens {
            cache_write_input_tokens: Counter::Missing,
            ..tokens()
        },
        Some(&rates(CacheWritePolicy::Additional, false)),
    );
    assert_eq!(values.finish().reason, Some("Missing token counters"));
    let mut values = Categories::default();
    values.add(
        &Tokens {
            cached_input_tokens: Counter::Known(101),
            ..tokens()
        },
        Some(&rates(CacheWritePolicy::Additional, false)),
    );
    assert_eq!(
        values.finish().reason,
        Some("Token categories violate the configured subset bounds")
    );
    assert_eq!(
        Categories::default().finish().reason,
        Some("No local usage observations")
    );
}

#[test]
fn category_amounts_add_up_to_the_valuation_and_merge_conserves_them() {
    let first = rates(CacheWritePolicy::Additional, false);
    let second = rates(CacheWritePolicy::IncludedInputDisjoint, true);
    let mut left = Categories::default();
    left.add(&tokens(), Some(&first));
    let mut right = Categories::default();
    right.add(&tokens(), Some(&second));
    let expected = first.value(&tokens()).unwrap() + second.value(&tokens()).unwrap();
    assert_eq!(left.checked_total(), Some(first.value(&tokens()).unwrap()));
    left.merge(right);
    assert_eq!(left.checked_total(), Some(expected));
    assert_eq!(expected, 810_000_000);
    let mut rejected = left.clone();
    rejected.reject("Quota interval crosses a reset");
    assert_eq!(rejected.checked_total(), None);
    assert_eq!(rejected.finish().reason, Some("Quota interval crosses a reset"));
    assert_eq!(rejected.finish().output, None);
}

#[test]
fn overflowing_amounts_block_the_split() {
    let mut huge = Categories::default();
    huge.amounts = [i128::MAX, 0, 0, 0];
    huge.observed = true;
    let mut other = Categories::default();
    other.amounts = [1, 2, 3, 4];
    huge.merge(other);
    assert_eq!(huge.amounts, [i128::MAX, 2, 3, 4]);
    assert_eq!(huge.finish().reason, Some("Estimated amount exceeds supported range"));
    let mut unknown_writes = Categories::default();
    let unknown = Rates { cache_write_policy: CacheWritePolicy::Unknown, ..rates(CacheWritePolicy::Additional, false) };
    unknown_writes.add(&tokens(), Some(&unknown));
    assert_eq!(
        unknown_writes.finish().reason,
        Some("Unsupported token semantics for this price version")
    );
}
