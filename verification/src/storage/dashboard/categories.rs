//! Estimated cost split by token category, shared by the quota intervals and
//! the per-model rows. Each observation is valued with its own model's
//! preserved price version and policies, so the four amounts add up exactly to
//! the estimated token cost of whatever scope they were accumulated over.
use crate::adapter::Tokens;
use crate::dashboard::CategoryCosts;
use crate::pricing::{category_amounts, four_sum, law_category_split_adds_up, sum_amounts, valuation, Error, Rates};
use crate::text::{decimal, i128_text};
use vstd::prelude::*;

verus! {

pub const UNPRICED: &'static str = "Unpriced usage: no applicable model price";
pub const OUT_OF_RANGE: &'static str = "Estimated amount exceeds supported range";
pub const MISSING_COUNTERS: &'static str = "Missing token counters";
pub const INVALID_CATEGORIES: &'static str = "Token categories violate the configured subset bounds";
pub const UNSUPPORTED: &'static str = "Unsupported token semantics for this price version";
pub const NO_OBSERVATIONS: &'static str = "No local usage observations";

/// Amounts in trillionths of a USD for input, cached input, cache writes and
/// output (with separately priced reasoning), the first reason that blocks the
/// split, and whether any usage was seen.
#[derive(Clone, Debug)]
pub struct Categories {
    pub amounts: [i128; 4],
    pub reason: Option<&'static str>,
    pub observed: bool,
}

/// True when the value fits in an `i128`.
pub open spec fn fits(value: int) -> bool {
    i128::MIN <= value <= i128::MAX
}

/// Each running amount plus its part, where the sum fits; the old amount otherwise.
pub open spec fn summed(amounts: Seq<i128>, parts: Seq<i128>) -> Seq<i128> {
    Seq::new(4, |i: int| if fits(amounts[i] + parts[i]) { (amounts[i] + parts[i]) as i128 } else { amounts[i] })
}

/// Some running amount plus its part leaves the `i128` range.
pub open spec fn overflows(amounts: Seq<i128>, parts: Seq<i128>) -> bool {
    exists|i: int| 0 <= i < 4 && !fits(amounts[i] + parts[i])
}

/// The reason a valuation error blocks the split.
pub open spec fn error_reason(error: Error) -> &'static str {
    match error {
        Error::Overflow => OUT_OF_RANGE,
        Error::MissingCategories => MISSING_COUNTERS,
        Error::InvalidCategories => INVALID_CATEGORIES,
        _ => UNSUPPORTED,
    }
}

/// The amounts and reason after one more observation, valued at `rates` when
/// it is priced.
pub open spec fn added(before: Categories, tokens: Tokens, rates: Option<Rates>) -> (Seq<i128>, Option<&'static str>) {
    match rates {
        None => (before.amounts@, Some(UNPRICED)),
        Some(r) => match category_amounts(r, &tokens) {
            Ok(parts) => (
                summed(before.amounts@, parts),
                if overflows(before.amounts@, parts) { Some(OUT_OF_RANGE) } else { before.reason },
            ),
            Err(e) => (before.amounts@, Some(error_reason(e))),
        },
    }
}

/// The plain sum of four amounts.
pub open spec fn amount_total(amounts: Seq<i128>) -> int {
    amounts[0] + amounts[1] + amounts[2] + amounts[3]
}

/// The reason a finished split reports.
pub open spec fn finished_reason(c: Categories) -> Option<&'static str> {
    if c.observed { c.reason } else { Some(NO_OBSERVATIONS) }
}

/// A finished amount: its decimal text unless a reason blocks the split.
pub open spec fn finished_amount(c: Categories, i: int) -> Option<Seq<char>> {
    if finished_reason(c) is None { Some(decimal(c.amounts[i] as int)) } else { None }
}

/// The view of an optional owned text.
pub open spec fn opt_view(value: Option<String>) -> Option<Seq<char>> {
    match value {
        Some(v) => Some(v@),
        None => None,
    }
}

impl Default for Categories {
    /// Nothing observed, every amount zero.
    fn default() -> (result: Categories)
        ensures
            result.amounts@ == seq![0i128, 0, 0, 0],
            result.reason is None,
            !result.observed,
    {
        let result = Categories { amounts: [0, 0, 0, 0], reason: None, observed: false };
        assert(result.amounts@ =~= seq![0i128, 0, 0, 0]);
        result
    }
}

fn add_amounts(amounts: &mut [i128; 4], parts: [i128; 4]) -> (overflowed: bool)
    ensures
        final(amounts)@ == summed(old(amounts)@, parts@),
        overflowed == overflows(old(amounts)@, parts@),
{
    let ghost before = amounts@;
    let mut overflowed = false;
    let mut i: usize = 0;
    while i < 4
        invariant
            0 <= i <= 4,
            amounts@.len() == 4,
            forall|j: int| 0 <= j < i ==> amounts@[j] == #[trigger] summed(before, parts@)[j],
            forall|j: int| i <= j < 4 ==> amounts@[j] == before[j],
            overflowed == exists|j: int| 0 <= j < i && !fits(before[j] + parts@[j]),
        decreases 4 - i,
    {
        match amounts[i].checked_add(parts[i]) {
            Some(value) => {
                amounts[i] = value;
            }
            None => {
                overflowed = true;
            }
        }
        i = i + 1;
    }
    assert(amounts@ =~= summed(before, parts@));
    overflowed
}

impl Categories {
    /// Adds one observation valued at its own price version; usage without a
    /// price, or that its price cannot value, blocks the split with a reason.
    pub fn add(&mut self, tokens: &Tokens, rates: Option<&Rates>)
        ensures
            final(self).observed,
            final(self).amounts@ == added(*old(self), *tokens, match rates { Some(r) => Some(*r), None => None }).0,
            final(self).reason == added(*old(self), *tokens, match rates { Some(r) => Some(*r), None => None }).1,
    {
        self.observed = true;
        let rates = match rates {
            Some(r) => r,
            None => {
                self.reason = Some(UNPRICED);
                return;
            }
        };
        match rates.breakdown(tokens) {
            Ok(parts) => {
                let overflowed = add_amounts(&mut self.amounts, parts);
                if overflowed {
                    self.reason = Some(OUT_OF_RANGE);
                }
            }
            Err(Error::Overflow) => self.reason = Some(OUT_OF_RANGE),
            Err(Error::MissingCategories) => self.reason = Some(MISSING_COUNTERS),
            Err(Error::InvalidCategories) => self.reason = Some(INVALID_CATEGORIES),
            Err(_) => self.reason = Some(UNSUPPORTED),
        }
    }

    /// Adds another scope's amounts, keeping the first blocking reason.
    pub fn merge(&mut self, other: Categories)
        ensures
            final(self).observed == (old(self).observed || other.observed),
            final(self).amounts@ == summed(old(self).amounts@, other.amounts@),
            final(self).reason == (if overflows(old(self).amounts@, other.amounts@) {
                Some(OUT_OF_RANGE)
            } else if old(self).reason is Some {
                old(self).reason
            } else {
                other.reason
            }),
    {
        self.observed = self.observed || other.observed;
        let overflowed = add_amounts(&mut self.amounts, other.amounts);
        if overflowed {
            self.reason = Some(OUT_OF_RANGE);
        }
        if self.reason.is_none() {
            self.reason = other.reason;
        }
    }

    /// Exact sum of the four amounts, or None once a reason blocks the split.
    pub fn checked_total(&self) -> (result: Option<i128>)
        ensures
            self.reason is Some ==> result is None,
            self.reason is None ==> result == four_sum(self.amounts@),
    {
        if self.reason.is_some() {
            return None;
        }
        sum_amounts(self.amounts)
    }

    /// Marks the split unusable with the caller's own wording, which then
    /// replaces the default "no observations" reason.
    pub fn reject(&mut self, reason: &'static str)
        ensures
            final(self).observed,
            final(self).reason == Some(reason),
            final(self).amounts == old(self).amounts,
    {
        self.observed = true;
        self.reason = Some(reason);
    }

    /// The four amounts as decimal text, all absent once a reason blocks the split
    /// (or when nothing was observed).
    pub fn finish(&self) -> (result: CategoryCosts)
        ensures
            result.reason == finished_reason(*self),
            opt_view(result.input) == finished_amount(*self, 0),
            opt_view(result.cached_input) == finished_amount(*self, 1),
            opt_view(result.cache_writes) == finished_amount(*self, 2),
            opt_view(result.output) == finished_amount(*self, 3),
    {
        let reason = if self.observed { self.reason } else { Some(NO_OBSERVATIONS) };
        if reason.is_some() {
            return CategoryCosts { input: None, cached_input: None, cache_writes: None, output: None, reason };
        }
        CategoryCosts {
            input: Some(i128_text(self.amounts[0])),
            cached_input: Some(i128_text(self.amounts[1])),
            cache_writes: Some(i128_text(self.amounts[2])),
            output: Some(i128_text(self.amounts[3])),
            reason,
        }
    }
}

/// Adding a priced observation that leaves the split usable raises the sum of
/// the four amounts by exactly that observation's estimated cost.
pub proof fn law_split_accumulates_valuation(before: Categories, tokens: Tokens, rates: Rates)
    requires
        valuation(rates, &tokens) is Ok,
        added(before, tokens, Some(rates)).1 is None,
    ensures
        amount_total(added(before, tokens, Some(rates)).0)
            == amount_total(before.amounts@) + valuation(rates, &tokens).unwrap(),
{
    if category_amounts(rates, &tokens) is Ok {
        let parts = category_amounts(rates, &tokens).unwrap();
        law_category_split_adds_up(rates, &tokens);
        assert forall|i: int| 0 <= i < 4 implies fits(before.amounts[i] + parts[i]) by {
            if !fits(before.amounts[i] + parts[i]) {
                assert(overflows(before.amounts@, parts));
            }
        }
    }
}

/// Merging two usable splits without overflow adds their sums.
pub proof fn law_merge_conserves_totals(a: Categories, b: Categories)
    requires
        !overflows(a.amounts@, b.amounts@),
    ensures
        summed(a.amounts@, b.amounts@)[0] + summed(a.amounts@, b.amounts@)[1]
            + summed(a.amounts@, b.amounts@)[2] + summed(a.amounts@, b.amounts@)[3]
            == amount_total(a.amounts@) + amount_total(b.amounts@),
{
    assert forall|i: int| 0 <= i < 4 implies fits(a.amounts[i] + b.amounts[i]) by {
        if !fits(a.amounts[i] + b.amounts[i]) {
            assert(overflows(a.amounts@, b.amounts@));
        }
    }
}

} // verus!
