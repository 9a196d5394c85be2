//! The exact estimated-cost sum the aggregate queries compute inside the store:
//! canonical non-negative integers of trillionths of a USD, added with overflow
//! checks, never coerced to floating point.
use crate::text::{decimal, i128_text, parse_i128, parsed_i128, str_eq};
use vstd::prelude::*;

verus! {

/// The message of a stored subtotal that cannot be summed.
pub const INVALID_SUBTOTAL: &'static str = "Invalid or overflowing estimated cost subtotal";

/// A running sum of stored subtotals; `None` until a subtotal is seen.
#[derive(Clone, Copy, Debug, PartialEq, Eq, Structural)]
pub struct CostSum {
    pub sum: Option<i128>,
}

/// The amount a stored subtotal holds: a canonical non-negative integer.
pub open spec fn canonical_amount(encoded: Seq<char>) -> Option<i128> {
    match parsed_i128(encoded) {
        Some(a) => if a >= 0 && decimal(a as int) == encoded {
            Some(a)
        } else {
            None
        },
        None => None,
    }
}

/// The sum after one more stored value: an absent value changes nothing; a value
/// that is not canonical, or a sum that overflows, is refused.
pub open spec fn cost_step(sum: Option<i128>, encoded: Option<Seq<char>>) -> Result<Option<i128>, ()> {
    match encoded {
        None => Ok(sum),
        Some(e) => match canonical_amount(e) {
            None => Err(()),
            Some(a) => {
                let total = match sum {
                    Some(s) => s + a,
                    None => a as int,
                };
                if total > i128::MAX {
                    Err(())
                } else {
                    Ok(Some(total as i128))
                }
            },
        },
    }
}

impl CostSum {
    /// An empty sum.
    pub fn init() -> (result: CostSum)
        ensures
            result.sum is None,
    {
        CostSum { sum: None }
    }

    /// Adds one stored subtotal.
    pub fn step(&mut self, encoded: Option<&str>) -> (result: Result<(), &'static str>)
        ensures
            match cost_step(old(self).sum, match encoded { Some(e) => Some(e@), None => None }) {
                Ok(next) => result is Ok && final(self).sum == next,
                Err(_) => result == Err::<(), &'static str>(INVALID_SUBTOTAL) && *final(self)
                    == *old(self),
            },
    {
        let encoded = match encoded {
            Some(e) => e,
            None => return Ok(()),
        };
        let amount = match parse_i128(encoded) {
            Some(a) => a,
            None => return Err(INVALID_SUBTOTAL),
        };
        if amount < 0 || !str_eq(i128_text(amount).as_str(), encoded) {
            return Err(INVALID_SUBTOTAL);
        }
        let base = match self.sum {
            Some(s) => s,
            None => 0,
        };
        match base.checked_add(amount) {
            Some(total) => {
                self.sum = Some(total);
                Ok(())
            },
            None => Err(INVALID_SUBTOTAL),
        }
    }

    /// The sum as canonical text, absent when no subtotal was seen.
    pub fn finalize(self) -> (result: Option<String>)
        ensures
            match self.sum {
                Some(s) => result matches Some(t) && t@ == decimal(s as int),
                None => result is None,
            },
    {
        match self.sum {
            Some(amount) => Some(i128_text(amount)),
            None => None,
        }
    }
}

} // verus!
