//! Disjoint quota intervals: token totals and research compositions of the
//! optional token categories.
pub mod hypotheses;

use crate::aggregates::{text_of, Category, Tokens};
use crate::storage::dashboard::quota::hypotheses::Hypotheses;
use crate::text::{decimal, parse_u128, parsed_u128, u128_text};
use crate::weekly::ReadError;
use vstd::prelude::*;

verus! {

pub const MAX_INTERVALS: usize = 512;

/// Token totals of one quota interval: per category (total, input, cached input,
/// cache writes, output, reasoning) the exact sum of known values and whether any
/// observation lacked it, whether anything was observed, and the compositions.
#[derive(Clone, Debug)]
pub struct Totals {
    pub sums: [u128; 6],
    pub missing: [bool; 6],
    pub observed: bool,
    pub hypotheses: Hypotheses,
}

/// A token category of an interval by index.
pub open spec fn category_at(t: Tokens, index: int) -> Category {
    if index == 0 {
        t.total_tokens
    } else if index == 1 {
        t.input_tokens
    } else if index == 2 {
        t.cached_input_tokens
    } else if index == 3 {
        t.cache_write_tokens
    } else if index == 4 {
        t.output_tokens
    } else {
        t.reasoning_tokens
    }
}

/// A category's known value is unsigned decimal text within `u128`, or absent.
pub open spec fn readable(c: Category) -> bool {
    match c.known_tokens {
        Some(text) => parsed_u128(text@) is Some,
        None => true,
    }
}

/// The sum of a category after one more value, if it stays within `u128`.
pub open spec fn sum_after(sum: u128, c: Category) -> Option<u128> {
    match c.known_tokens {
        Some(text) => match parsed_u128(text@) {
            Some(v) => if sum + v <= u128::MAX { Some((sum + v) as u128) } else { None },
            None => None,
        },
        None => Some(sum),
    }
}

/// One category of a finished interval: its sum only when every observation knew it.
pub open spec fn finished_category(t: Totals, index: int, c: Category) -> bool {
    let known = t.observed && !t.missing[index];
    &&& text_of(c.known_tokens) == if known { Some(decimal(t.sums[index] as int)) } else { None::<Seq<char>> }
    &&& c.complete == known
}

impl Totals {
    /// Nothing observed.
    pub fn new() -> (result: Totals)
        ensures
            !result.observed,
            forall|i: int| 0 <= i < 6 ==> #[trigger] result.sums[i] == 0 && !result.missing[i],
    {
        Totals { sums: [0; 6], missing: [false; 6], observed: false, hypotheses: Hypotheses::default() }
    }

    /// Adds one observation's token categories: a category that is incomplete
    /// stays missing for the interval; known values must read as unsigned
    /// integers and their sums stay within `u128`.
    #[verifier::loop_isolation(false)]
    pub fn add(&mut self, tokens: Tokens) -> (result: Result<(), ReadError>)
        ensures
            (forall|i: int| 0 <= i < 6 ==> #[trigger] sum_after(old(self).sums[i], category_at(tokens, i)) is Some)
                <==> result is Ok,
            result is Err ==> result == Err::<(), ReadError>(ReadError::Storage),
            result is Ok ==> {
                &&& final(self).observed
                &&& forall|i: int| 0 <= i < 6 ==> #[trigger] final(self).missing[i]
                    == (old(self).missing[i] || !category_at(tokens, i).complete)
                &&& forall|i: int| 0 <= i < 6 ==> Some(#[trigger] final(self).sums[i])
                    == sum_after(old(self).sums[i], category_at(tokens, i))
            },
    {
        self.observed = true;
        let categories = [tokens.total_tokens, tokens.input_tokens, tokens.cached_input_tokens,
            tokens.cache_write_tokens, tokens.output_tokens, tokens.reasoning_tokens];
        let ghost before = *old(self);
        let mut index: usize = 0;
        while index < 6
            invariant
                0 <= index <= 6,
                self.observed,
                categories@.len() == 6,
                forall|i: int| 0 <= i < 6 ==> #[trigger] categories@[i] == category_at(tokens, i),
                forall|i: int| 0 <= i < index ==> #[trigger] sum_after(before.sums[i], category_at(tokens, i)) is Some,
                forall|i: int| 0 <= i < index ==> #[trigger] self.missing[i] == (before.missing[i] || !category_at(tokens, i).complete),
                forall|i: int| 0 <= i < index ==> Some(#[trigger] self.sums[i]) == sum_after(before.sums[i], category_at(tokens, i)),
                forall|i: int| index <= i < 6 ==> #[trigger] self.sums[i] == before.sums[i],
                forall|i: int| index <= i < 6 ==> #[trigger] self.missing[i] == before.missing[i],
            decreases 6 - index,
        {
            let category = &categories[index];
            assert(*category == category_at(tokens, index as int));
            self.missing[index] = self.missing[index] || !category.complete;
            if let Some(text) = &category.known_tokens {
                let value = match parse_u128(text.as_str()) {
                    Some(v) => v,
                    None => {
                        assert(sum_after(before.sums[index as int], category_at(tokens, index as int)) is None);
                        return Err(ReadError::Storage);
                    },
                };
                match self.sums[index].checked_add(value) {
                    Some(sum) => self.sums[index] = sum,
                    None => {
                        assert(sum_after(before.sums[index as int], category_at(tokens, index as int)) is None);
                        return Err(ReadError::Storage);
                    },
                }
            }
            index = index + 1;
        }
        Ok(())
    }

    /// The interval's token categories.
    pub fn finish(&self) -> (result: Tokens)
        ensures
            finished_category(*self, 0, result.total_tokens),
            finished_category(*self, 1, result.input_tokens),
            finished_category(*self, 2, result.cached_input_tokens),
            finished_category(*self, 3, result.cache_write_tokens),
            finished_category(*self, 4, result.output_tokens),
            finished_category(*self, 5, result.reasoning_tokens),
    {
        Tokens {
            total_tokens: self.category(0),
            input_tokens: self.category(1),
            cached_input_tokens: self.category(2),
            cache_write_tokens: self.category(3),
            output_tokens: self.category(4),
            reasoning_tokens: self.category(5),
        }
    }

    fn category(&self, index: usize) -> (result: Category)
        requires
            index < 6,
        ensures
            finished_category(*self, index as int, result),
    {
        let known = self.observed && !self.missing[index];
        Category { known_tokens: if known { Some(u128_text(self.sums[index])) } else { None }, complete: known }
    }
}

} // verus!
