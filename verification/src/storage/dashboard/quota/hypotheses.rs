//! Sixteen token compositions per quota interval: each of the eight subsets of
//! the optional categories (cached input=1, cache writes=2, reasoning=4), with
//! cache writes read either as additional to input or as included in it.
use crate::adapter::{Counter, Tokens};
use crate::dashboard::QuotaHypothesis;
use crate::pricing::{checked_sum, hypothesis_rates, products, Rates};
use crate::storage::dashboard::categories::{fits, NO_OBSERVATIONS, OUT_OF_RANGE, UNPRICED};
use crate::text::{decimal, i128_text};
use vstd::prelude::*;

verus! {

pub const MISSING_COUNTERS: &'static str = "Missing token counters";
pub const INVALID_INPUT: &'static str = "Invalid input subset subtraction";
pub const INVALID_OUTPUT: &'static str = "Invalid output subset subtraction";
pub const TOKENS_OUT_OF_RANGE: &'static str = "Token total exceeds supported range";

/// Running token totals and amounts of the sixteen compositions, each with the
/// first reason that blocks its tokens or its price.
#[derive(Clone, Debug)]
pub struct Hypotheses {
    pub tokens: [i128; 16],
    pub amounts: [i128; 16],
    pub token_reasons: [Option<&'static str>; 16],
    pub price_reasons: [Option<&'static str>; 16],
    pub observed: bool,
}

/// A known, nonnegative counter.
pub open spec fn usable(counter: Counter) -> bool {
    counter matches Counter::Known(v) && v >= 0
}

/// The known value of a counter, zero otherwise.
pub open spec fn known(counter: Counter) -> i64 {
    match counter {
        Counter::Known(v) => v,
        _ => 0,
    }
}

/// The five billable components of one composition: ordinary input, cached input,
/// cache writes, visible output, reasoning. Writes are read only when they are
/// part of the composition or included in input.
pub open spec fn components_spec(tokens: Tokens, mask: u8, included: bool) -> Result<Seq<i64>, &'static str> {
    let needs_writes = included || mask & 2 != 0;
    if !usable(tokens.input_tokens) || !usable(tokens.cached_input_tokens)
        || !usable(tokens.output_tokens) || !usable(tokens.reasoning_output_tokens)
        || (needs_writes && !usable(tokens.cache_write_input_tokens)) {
        Err(MISSING_COUNTERS)
    } else {
        let input = known(tokens.input_tokens);
        let cached = known(tokens.cached_input_tokens);
        let writes: i64 = if needs_writes { known(tokens.cache_write_input_tokens) } else { 0 };
        let output = known(tokens.output_tokens);
        let reasoning = known(tokens.reasoning_output_tokens);
        let ordinary = input - cached - (if included { writes as int } else { 0 });
        if ordinary < 0 {
            Err(INVALID_INPUT)
        } else if output - reasoning < 0 {
            Err(INVALID_OUTPUT)
        } else {
            Ok(seq![
                ordinary as i64,
                if mask & 1 != 0 { cached } else { 0 },
                if mask & 2 != 0 { writes } else { 0 },
                (output - reasoning) as i64,
                if mask & 4 != 0 { reasoning } else { 0 },
            ])
        }
    }
}

/// The composition of each of the sixteen slots: the mask of its optional
/// categories and whether writes are included in input.
pub open spec fn slot_mask(index: int) -> u8 {
    (index % 8) as u8
}

/// The plain sum of five components.
pub open spec fn component_total(parts: Seq<i64>) -> int {
    parts[0] + parts[1] + parts[2] + parts[3] + parts[4]
}

/// A slot's token total, amount, token reason and price reason after one more
/// observation.
pub open spec fn slot_after(before: Hypotheses, tokens: Tokens, rates: Option<Rates>, index: int)
    -> (i128, i128, Option<&'static str>, Option<&'static str>)
{
    let t = before.tokens[index];
    let a = before.amounts[index];
    let tr = before.token_reasons[index];
    let pr = before.price_reasons[index];
    match components_spec(tokens, slot_mask(index), index >= 8) {
        Err(reason) => (t, a, Some(reason), pr),
        Ok(parts) => {
            let total = component_total(parts);
            let (t2, tr2) = if fits(t + total) { ((t + total) as i128, tr) } else { (t, Some(TOKENS_OUT_OF_RANGE)) };
            let (a2, pr2) = match rates {
                None => (a, Some(UNPRICED)),
                Some(r) => match checked_sum(products(parts, hypothesis_rates(r))) {
                    Some(v) => if fits(a + v) { ((a + v) as i128, pr) } else { (a, Some(OUT_OF_RANGE)) },
                    None => (a, Some(OUT_OF_RANGE)),
                },
            };
            (t2, a2, tr2, pr2)
        },
    }
}

/// The token reason a finished slot reports.
pub open spec fn finished_token_reason(h: Hypotheses, index: int) -> Option<&'static str> {
    if h.observed { h.token_reasons[index] } else { Some(NO_OBSERVATIONS) }
}

/// The price reason a finished slot reports: its token reason first.
pub open spec fn finished_price_reason(h: Hypotheses, index: int) -> Option<&'static str> {
    match finished_token_reason(h, index) {
        Some(r) => Some(r),
        None => h.price_reasons[index],
    }
}

/// The rates behind an optional reference.
pub open spec fn owned_rates(rates: Option<&Rates>) -> Option<Rates> {
    match rates {
        Some(r) => Some(*r),
        None => None,
    }
}

/// The view of an optional owned text.
pub open spec fn text_view(value: Option<String>) -> Option<Seq<char>> {
    match value {
        Some(v) => Some(v@),
        None => None,
    }
}

/// One finished row as the accumulated state determines it.
pub open spec fn finished_row(h: Hypotheses, index: int, row: QuotaHypothesis) -> bool {
    &&& row.mask == slot_mask(index)
    &&& row.writes_included == (index >= 8)
    &&& row.token_reason == finished_token_reason(h, index)
    &&& row.price_reason == finished_price_reason(h, index)
    &&& text_view(row.tokens) == if finished_token_reason(h, index) is None {
        Some(decimal(h.tokens[index] as int))
    } else {
        None::<Seq<char>>
    }
    &&& text_view(row.estimated_usd) == if finished_price_reason(h, index) is None {
        Some(decimal(h.amounts[index] as int))
    } else {
        None::<Seq<char>>
    }
}

fn counter(value: &Counter) -> (result: Result<i64, &'static str>)
    ensures
        usable(*value) ==> result == Ok::<i64, &'static str>(known(*value)),
        !usable(*value) ==> result == Err::<i64, &'static str>(MISSING_COUNTERS),
{
    match value.value() {
        Some(v) => if v >= 0 { Ok(v) } else { Err(MISSING_COUNTERS) },
        None => Err(MISSING_COUNTERS),
    }
}

/// The five billable components of one composition.
pub fn components(tokens: &Tokens, mask: u8, included: bool) -> (result: Result<[i64; 5], &'static str>)
    ensures
        match result {
            Ok(parts) => components_spec(*tokens, mask, included) == Ok::<Seq<i64>, &'static str>(parts@),
            Err(reason) => components_spec(*tokens, mask, included) == Err::<Seq<i64>, &'static str>(reason),
        },
{
    let input = counter(&tokens.input_tokens)?;
    let cached = counter(&tokens.cached_input_tokens)?;
    let output = counter(&tokens.output_tokens)?;
    let reasoning = counter(&tokens.reasoning_output_tokens)?;
    let writes = if included || mask & 2 != 0 {
        counter(&tokens.cache_write_input_tokens)?
    } else {
        0
    };
    let ordinary = input - cached;
    let ordinary = if included {
        if ordinary < writes {
            return Err(INVALID_INPUT);
        }
        ordinary - writes
    } else {
        ordinary
    };
    if ordinary < 0 {
        return Err(INVALID_INPUT);
    }
    if output < reasoning {
        return Err(INVALID_OUTPUT);
    }
    let parts = [
        ordinary,
        if mask & 1 != 0 { cached } else { 0 },
        if mask & 2 != 0 { writes } else { 0 },
        output - reasoning,
        if mask & 4 != 0 { reasoning } else { 0 },
    ];
    assert(parts@ =~= components_spec(*tokens, mask, included).unwrap());
    Ok(parts)
}

impl Default for Hypotheses {
    /// Nothing observed; every total and amount zero, no reasons.
    fn default() -> (result: Hypotheses)
        ensures
            !result.observed,
            forall|i: int| 0 <= i < 16 ==> result.tokens[i] == 0 && result.amounts[i] == 0
                && result.token_reasons[i] is None && result.price_reasons[i] is None,
    {
        Hypotheses {
            tokens: [0i128; 16],
            amounts: [0i128; 16],
            token_reasons: [None; 16],
            price_reasons: [None; 16],
            observed: false,
        }
    }
}

impl Hypotheses {
    /// Adds one observation to all sixteen compositions. Missing or inconsistent
    /// counters block only the compositions that read them; usage without a price
    /// blocks every amount but keeps the token totals.
    pub fn add(&mut self, tokens: &Tokens, rates: Option<&Rates>)
        ensures
            final(self).observed,
            forall|i: int| 0 <= i < 16 ==> (final(self).tokens[i], final(self).amounts[i],
                final(self).token_reasons[i], final(self).price_reasons[i])
                == #[trigger] slot_after(*old(self), *tokens, owned_rates(rates), i),
    {
        let ghost before = *self;
        let ghost spec_rates = owned_rates(rates);
        self.observed = true;
        let mut index: usize = 0;
        while index < 16
            invariant
                0 <= index <= 16,
                self.observed,
                spec_rates == owned_rates(rates),
                forall|i: int| 0 <= i < index ==> (self.tokens[i], self.amounts[i],
                    self.token_reasons[i], self.price_reasons[i]) == #[trigger] slot_after(before, *tokens, spec_rates, i),
                forall|i: int| index <= i < 16 ==> self.tokens[i] == before.tokens[i]
                    && self.amounts[i] == before.amounts[i]
                    && self.token_reasons[i] == before.token_reasons[i]
                    && self.price_reasons[i] == before.price_reasons[i],
            decreases 16 - index,
        {
            let mask = (index % 8) as u8;
            assert(mask == slot_mask(index as int));
            match components(tokens, mask, index >= 8) {
                Err(reason) => {
                    self.token_reasons[index] = Some(reason);
                }
                Ok(parts) => {
                    let total = parts[0] as i128 + parts[1] as i128 + parts[2] as i128 + parts[3] as i128
                        + parts[4] as i128;
                    match self.tokens[index].checked_add(total) {
                        Some(value) => self.tokens[index] = value,
                        None => self.token_reasons[index] = Some(TOKENS_OUT_OF_RANGE),
                    }
                    match rates {
                        None => self.price_reasons[index] = Some(UNPRICED),
                        Some(r) => {
                            let sum = match r.hypothesis_value(parts) {
                                Ok(amount) => self.amounts[index].checked_add(amount),
                                Err(_) => None,
                            };
                            match sum {
                                Some(value) => self.amounts[index] = value,
                                None => self.price_reasons[index] = Some(OUT_OF_RANGE),
                            }
                        }
                    }
                }
            }
            index = index + 1;
        }
    }

    /// The sixteen rows: masks 0 to 7 with writes additional, then with writes
    /// included in input.
    pub fn finish(&self) -> (result: Vec<QuotaHypothesis>)
        ensures
            result.len() == 16,
            forall|i: int| 0 <= i < 16 ==> finished_row(*self, i, #[trigger] result[i]),
    {
        let mut rows: Vec<QuotaHypothesis> = Vec::new();
        let mut index: usize = 0;
        while index < 16
            invariant
                0 <= index <= 16,
                rows.len() == index,
                forall|i: int| 0 <= i < index ==> finished_row(*self, i, #[trigger] rows[i]),
            decreases 16 - index,
        {
            let token_reason = if self.observed { self.token_reasons[index] } else { Some(NO_OBSERVATIONS) };
            let price_reason = match token_reason {
                Some(r) => Some(r),
                None => self.price_reasons[index],
            };
            let tokens = match token_reason {
                None => Some(i128_text(self.tokens[index])),
                Some(_) => None,
            };
            let estimated_usd = match price_reason {
                None => Some(i128_text(self.amounts[index])),
                Some(_) => None,
            };
            let row = QuotaHypothesis {
                mask: (index % 8) as u8,
                writes_included: index >= 8,
                tokens,
                estimated_usd,
                token_reason,
                price_reason,
            };
            rows.push(row);
            index = index + 1;
        }
        rows
    }
}

} // verus!
