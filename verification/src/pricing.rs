//! Exact estimated USD rules. Rates are micro-USD per million tokens; valuation
//! amounts are integer trillionths (10^-12) of a USD.
use crate::adapter::Tokens;
use crate::text::{all_digits, digits_value, lemma_digits_value_nonneg, lemma_digits_value_take};
use vstd::prelude::*;

verus! {

/// Why a price could not be configured or usage could not be valued.
#[derive(Debug, Clone, PartialEq, Eq)]
pub enum Error {
    InvalidRate { field: &'static str },
    ReasoningRate,
    UnknownModel,
    BackfillOnlyFirst,
    BackfillUnavailable,
    Clock,
    MissingCategories,
    InvalidCategories,
    UnknownReasoning,
    UnknownCacheWrite,
    Overflow,
}

impl Error {
    /// The user-facing explanation of this error.
    pub fn message(&self) -> (result: &'static str)
        ensures
            result == error_message(*self),
    {
        match self {
            Error::InvalidRate { .. } => "Enter a nonnegative decimal price with at most six fractional digits within the supported range",
            Error::ReasoningRate => "A reasoning price is required only for separately priced reasoning",
            Error::UnknownModel => "Select a detected named model",
            Error::BackfillOnlyFirst => "Older usage can be covered only by the model's first price",
            Error::BackfillUnavailable => "No older unpriced usage is available for this model",
            Error::Clock => "The system clock must be later than this model's last price change",
            Error::MissingCategories => "Token categories are missing",
            Error::InvalidCategories => "Token categories violate the configured subset bounds",
            Error::UnknownReasoning => "Reasoning interpretation is unknown",
            Error::UnknownCacheWrite => "Nonzero cache-write interpretation is unknown",
            Error::Overflow => "Estimated token cost exceeds the supported exact range",
        }
    }
}

pub open spec fn error_message(error: Error) -> &'static str {
    match error {
        Error::InvalidRate { .. } => "Enter a nonnegative decimal price with at most six fractional digits within the supported range",
        Error::ReasoningRate => "A reasoning price is required only for separately priced reasoning",
        Error::UnknownModel => "Select a detected named model",
        Error::BackfillOnlyFirst => "Older usage can be covered only by the model's first price",
        Error::BackfillUnavailable => "No older unpriced usage is available for this model",
        Error::Clock => "The system clock must be later than this model's last price change",
        Error::MissingCategories => "Token categories are missing",
        Error::InvalidCategories => "Token categories violate the configured subset bounds",
        Error::UnknownReasoning => "Reasoning interpretation is unknown",
        Error::UnknownCacheWrite => "Nonzero cache-write interpretation is unknown",
        Error::Overflow => "Estimated token cost exceeds the supported exact range",
    }
}

/// How reasoning tokens are priced.
#[derive(Debug, Clone, Copy, PartialEq, Eq, Structural)]
pub enum ReasoningPolicy {
    Unknown,
    Included,
    Separate,
}

/// How cache-write tokens relate to input tokens.
#[derive(Debug, Clone, Copy, PartialEq, Eq, Structural)]
pub enum CacheWritePolicy {
    Unknown,
    IncludedInputDisjoint,
    Additional,
}

/// A price as entered: decimal USD per million tokens. The Store assigns the
/// effective timestamp when saving.
#[derive(Debug, Clone)]
pub struct PriceInput {
    pub input: String,
    pub cached_input: String,
    pub cache_write: String,
    pub output: String,
    pub reasoning: Option<String>,
    pub reasoning_policy: ReasoningPolicy,
    pub cache_write_policy: CacheWritePolicy,
}

/// Validated rates in micro-USD per million tokens.
#[derive(Debug, Clone)]
pub struct Rates {
    pub input: i64,
    pub cached_input: i64,
    pub cache_write: i64,
    pub output: i64,
    pub reasoning: i64,
    pub reasoning_policy: ReasoningPolicy,
    pub cache_write_policy: CacheWritePolicy,
}

/// Rates as validation makes them: every rate a non-negative count of micro-USD per
/// million tokens, and no reasoning rate unless reasoning is billed separately.
pub open spec fn rates_valid(rates: Rates) -> bool {
    &&& rates.input >= 0
    &&& rates.cached_input >= 0
    &&& rates.cache_write >= 0
    &&& rates.output >= 0
    &&& rates.reasoning >= 0
    &&& (rates.reasoning_policy != ReasoningPolicy::Separate ==> rates.reasoning == 0)
}

// ---------------------------------------------------------------- decimal rates

/// The index of the first `.` in the text, if any.
pub open spec fn first_dot(s: Seq<char>) -> Option<int> {
    if exists|i: int| 0 <= i < s.len() && s[i] == '.' {
        Some(choose|i: int| 0 <= i < s.len() && s[i] == '.' && forall|j: int| 0 <= j < i ==> s[j] != '.')
    } else {
        None
    }
}

/// The text before the first `.` (all of it when there is none).
pub open spec fn rate_whole(s: Seq<char>) -> Seq<char> {
    match first_dot(s) {
        Some(d) => s.take(d),
        None => s,
    }
}

/// The text after the first `.` (empty when there is none).
pub open spec fn rate_fraction(s: Seq<char>) -> Seq<char> {
    match first_dot(s) {
        Some(d) => s.skip(d + 1),
        None => Seq::<char>::empty(),
    }
}

pub open spec fn pow10(n: nat) -> int
    decreases n,
{
    if n == 0 { 1 } else { 10 * pow10((n - 1) as nat) }
}

/// Micro-units of a nonnegative decimal with at most six fractional digits, when it
/// fits in `i64`; None for any other text.
pub open spec fn rate_units(s: Seq<char>) -> Option<i64> {
    let whole = rate_whole(s);
    let fraction = rate_fraction(s);
    if whole.len() == 0 || !all_digits(whole) || !all_digits(fraction) || fraction.len() > 6
        || (first_dot(s) is Some && fraction.len() == 0) {
        None
    } else {
        let digits = digits_value(whole + fraction);
        let units = digits * pow10((6 - fraction.len()) as nat);
        if digits <= i64::MAX && units <= i64::MAX { Some(units as i64) } else { None }
    }
}

proof fn lemma_first_dot(s: Seq<char>, d: int)
    requires
        0 <= d <= s.len(),
        forall|j: int| 0 <= j < d ==> s[j] != '.',
        d == s.len() || s[d] == '.',
    ensures
        d < s.len() ==> first_dot(s) == Some(d),
        d == s.len() ==> first_dot(s) is None,
{
    if d < s.len() {
        let c = choose|i: int| 0 <= i < s.len() && s[i] == '.' && forall|j: int| 0 <= j < i ==> s[j] != '.';
        assert(0 <= c < s.len() && s[c] == '.' && forall|j: int| 0 <= j < c ==> s[j] != '.');
        if c < d {
            assert(s[c] != '.');
        }
        if c > d {
            assert(s[d] != '.');
        }
    }
}

fn pow10_exec(n: usize) -> (result: i64)
    requires
        n <= 6,
    ensures
        result == pow10(n as nat),
{
    let mut value: i64 = 1;
    let mut k: usize = 0;
    while k < n
        invariant
            k <= n <= 6,
            value == pow10(k as nat),
            value <= 1_000_000,
        decreases n - k,
    {
        proof {
            assert(pow10((k + 1) as nat) == 10 * pow10(k as nat));
            lemma_pow10_bound(k as nat);
        }
        value = value * 10;
        k = k + 1;
    }
    value
}

proof fn lemma_pow10_bound(n: nat)
    ensures
        1 <= pow10(n),
        n <= 5 ==> pow10(n) <= 100_000,
        n <= 6 ==> pow10(n) <= 1_000_000,
{
    reveal_with_fuel(pow10, 8);
    if n > 6 {
        lemma_pow10_positive(n);
    }
}

proof fn lemma_pow10_positive(n: nat)
    ensures
        1 <= pow10(n),
    decreases n,
{
    if n > 0 {
        lemma_pow10_positive((n - 1) as nat);
    }
}

/// A decimal rate denotes a non-negative number of units.
proof fn lemma_rate_units_nonneg(s: Seq<char>)
    ensures
        rate_units(s) matches Some(u) ==> u >= 0,
{
    let all = rate_whole(s) + rate_fraction(s);
    if rate_units(s) is Some {
        lemma_digits_value_nonneg(all);
        lemma_pow10_positive((6 - rate_fraction(s).len()) as nat);
        let d = digits_value(all);
        let p = pow10((6 - rate_fraction(s).len()) as nat);
        assert(d * p >= 0) by (nonlinear_arith)
            requires
                d >= 0,
                p >= 1,
        ;
    }
}

/// Parses one decimal rate into micro-USD per million tokens.
#[verifier::rlimit(50)]
pub fn rate(value: &str, field: &'static str) -> (result: Result<i64, Error>)
    ensures
        match rate_units(value@) {
            Some(units) => result == Ok::<i64, Error>(units),
            None => result == Err::<i64, Error>(Error::InvalidRate { field }),
        },
{
    let n = value.unicode_len();
    let mut d: usize = 0;
    while d < n && value.get_char(d) != '.'
        invariant
            d <= n,
            n == value@.len(),
            forall|j: int| 0 <= j < d ==> value@[j] != '.',
        decreases n - d,
    {
        d = d + 1;
    }
    proof {
        lemma_first_dot(value@, d as int);
    }
    let has_dot = d < n;
    let fraction_start = if has_dot { d + 1 } else { n };
    let fraction_len = n - fraction_start;
    let ghost whole = value@.take(d as int);
    let ghost fraction = value@.skip(fraction_start as int);
    let ghost all = whole + fraction;
    proof {
        if !has_dot {
            assert(whole =~= value@);
            assert(fraction =~= Seq::<char>::empty());
        }
        assert(whole == rate_whole(value@));
        assert(fraction == rate_fraction(value@));
    }
    if d == 0 || fraction_len > 6 || (has_dot && fraction_len == 0) {
        return Err(Error::InvalidRate { field });
    }
    // Digits of the whole part, then the fraction, accumulated with overflow checks.
    let mut units: i64 = 0;
    let mut k: usize = 0;
    let total = d + fraction_len;
    while k < total
        invariant
            k <= total,
            total == d + fraction_len,
            d <= n,
            fraction_start == (if has_dot { d + 1 } else { n as int }),
            fraction_len == n - fraction_start,
            n == value@.len(),
            whole == value@.take(d as int),
            fraction == value@.skip(fraction_start as int),
            all == whole + fraction,
            all.len() == total,
            all_digits(all.take(k as int)),
            units == digits_value(all.take(k as int)),
            d > 0,
            fraction_len <= 6,
            has_dot ==> fraction_len > 0,
            has_dot == (d < n),
            has_dot ==> first_dot(value@) == Some(d as int),
            !has_dot ==> first_dot(value@) is None,
            whole == rate_whole(value@),
            fraction == rate_fraction(value@),
        decreases total - k,
    {
        let c = if k < d { value.get_char(k) } else { value.get_char(fraction_start + (k - d)) };
        proof {
            assert(all[k as int] == c);
        }
        if !('0' <= c && c <= '9') {
            proof {
                if k < d {
                    assert(!all_digits(whole));
                } else {
                    assert(fraction[k - d] == c);
                    assert(!all_digits(fraction));
                }
            }
            return Err(Error::InvalidRate { field });
        }
        proof {
            assert(all.take(k + 1).drop_last() =~= all.take(k as int));
            assert(all_digits(all.take(k + 1)));
        }
        let digit = (c as u32 - '0' as u32) as i64;
        proof {
            lemma_digits_value_nonneg(all.take(k as int));
            assert(digits_value(all.take(k + 1)) == units * 10 + digit);
            if k < d {
                assert(whole.len() == d);
            }
        }
        match units.checked_mul(10) {
            Some(m) => match m.checked_add(digit) {
                Some(v) => {
                    units = v;
                }
                None => {
                    proof {
                        lemma_overflow_invalid(whole, fraction, all, k as int + 1);
                    }
                    return Err(Error::InvalidRate { field });
                }
            },
            None => {
                proof {
                    assert(units * 10 + digit > i64::MAX);
                    lemma_overflow_invalid(whole, fraction, all, k as int + 1);
                }
                return Err(Error::InvalidRate { field });
            }
        }
        k = k + 1;
    }
    proof {
        assert(all.take(total as int) =~= all);
        assert(all_digits(whole)) by {
            assert forall|i: int| 0 <= i < whole.len() implies '0' <= #[trigger] whole[i] <= '9' by {
                assert(all[i] == whole[i]);
            }
        }
        assert(all_digits(fraction)) by {
            assert forall|i: int| 0 <= i < fraction.len() implies '0' <= #[trigger] fraction[i] <= '9' by {
                assert(all[whole.len() + i] == fraction[i]);
            }
        }
        lemma_digits_value_nonneg(all);
        lemma_pow10_bound((6 - fraction_len) as nat);
        if !has_dot {
            assert(fraction =~= Seq::<char>::empty());
            assert(whole =~= value@);
        }
    }
    let scale = pow10_exec(6 - fraction_len);
    match units.checked_mul(scale) {
        Some(v) => Ok(v),
        None => Err(Error::InvalidRate { field }),
    }
}

proof fn lemma_overflow_invalid(whole: Seq<char>, fraction: Seq<char>, all: Seq<char>, k: int)
    requires
        all == whole + fraction,
        0 < k <= all.len(),
        all_digits(all.take(k)),
        digits_value(all.take(k)) > i64::MAX,
    ensures
        !all_digits(whole) || !all_digits(fraction) || digits_value(all) > i64::MAX,
{
    if all_digits(whole) && all_digits(fraction) {
        assert(all_digits(all)) by {
            assert forall|i: int| 0 <= i < all.len() implies '0' <= #[trigger] all[i] <= '9' by {
                if i < whole.len() {
                    assert(all[i] == whole[i]);
                } else {
                    assert(all[i] == fraction[i - whole.len()]);
                }
            }
        }
        lemma_digits_value_take(all, k);
    }
}

// ---------------------------------------------------------------- validation

/// The rates a price input configures, or the first configuration error: the reasoning
/// rate first, then input, cached input, cache writes and output.
pub open spec fn configured_rates(p: PriceInput) -> Result<Rates, Error> {
    let reasoning: Result<i64, Error> = match (p.reasoning_policy, p.reasoning) {
        (ReasoningPolicy::Separate, Some(v)) => match rate_units(v@) {
            Some(u) => Ok(u),
            None => Err(Error::InvalidRate { field: "reasoning" }),
        },
        (ReasoningPolicy::Separate, None) => Err(Error::ReasoningRate),
        (_, Some(_)) => Err(Error::ReasoningRate),
        (_, None) => Ok(0),
    };
    match reasoning {
        Err(e) => Err(e),
        Ok(reasoning) => match rate_units(p.input@) {
            None => Err(Error::InvalidRate { field: "input" }),
            Some(input) => match rate_units(p.cached_input@) {
                None => Err(Error::InvalidRate { field: "cachedInput" }),
                Some(cached_input) => match rate_units(p.cache_write@) {
                    None => Err(Error::InvalidRate { field: "cacheWrite" }),
                    Some(cache_write) => match rate_units(p.output@) {
                        None => Err(Error::InvalidRate { field: "output" }),
                        Some(output) => Ok(Rates {
                            input,
                            cached_input,
                            cache_write,
                            output,
                            reasoning,
                            reasoning_policy: p.reasoning_policy,
                            cache_write_policy: p.cache_write_policy,
                        }),
                    },
                },
            },
        },
    }
}

impl PriceInput {
    /// Validates every rate and the reasoning configuration.
    pub fn validate(&self) -> (result: Result<Rates, Error>)
        ensures
            result == configured_rates(*self),
            result matches Ok(rates) ==> rates_valid(rates),
    {
        proof {
            lemma_rate_units_nonneg(self.input@);
            lemma_rate_units_nonneg(self.cached_input@);
            lemma_rate_units_nonneg(self.cache_write@);
            lemma_rate_units_nonneg(self.output@);
            if self.reasoning is Some {
                lemma_rate_units_nonneg(self.reasoning.unwrap()@);
            }
        }
        let reasoning = match (self.reasoning_policy, &self.reasoning) {
            (ReasoningPolicy::Separate, Some(value)) => match rate(value.as_str(), "reasoning") {
                Ok(units) => units,
                Err(e) => return Err(e),
            },
            (ReasoningPolicy::Separate, None) => return Err(Error::ReasoningRate),
            (_, Some(_)) => return Err(Error::ReasoningRate),
            (_, None) => 0,
        };
        let input = match rate(self.input.as_str(), "input") {
            Ok(units) => units,
            Err(e) => return Err(e),
        };
        let cached_input = match rate(self.cached_input.as_str(), "cachedInput") {
            Ok(units) => units,
            Err(e) => return Err(e),
        };
        let cache_write = match rate(self.cache_write.as_str(), "cacheWrite") {
            Ok(units) => units,
            Err(e) => return Err(e),
        };
        let output = match rate(self.output.as_str(), "output") {
            Ok(units) => units,
            Err(e) => return Err(e),
        };
        Ok(Rates {
            input,
            cached_input,
            cache_write,
            output,
            reasoning,
            reasoning_policy: self.reasoning_policy,
            cache_write_policy: self.cache_write_policy,
        })
    }
}

// ---------------------------------------------------------------- valuation

/// Partial sums of the terms, each required to stay within `i128`.
pub open spec fn checked_sum(terms: Seq<int>) -> Option<int>
    decreases terms.len(),
{
    if terms.len() == 0 {
        Some(0)
    } else {
        match checked_sum(terms.drop_last()) {
            Some(s) => if i128::MIN <= s + terms.last() <= i128::MAX { Some(s + terms.last()) } else { None },
            None => None,
        }
    }
}

/// Token quantities times rates, category by category.
pub open spec fn products(quantities: Seq<i64>, rates: Seq<i64>) -> Seq<int> {
    Seq::new(quantities.len(), |i: int| quantities[i] * rates[i])
}

/// The billable quantities of a usage record under these rates' policies: ordinary
/// input, cached input, cache writes, ordinary output, separately priced reasoning.
pub open spec fn billable(rates: Rates, tokens: &Tokens) -> Result<Seq<i64>, Error> {
    match tokens.spec_values() {
        None => Err(Error::MissingCategories),
        Some(v) => {
            let input = v[0];
            let cached = v[1];
            let writes = v[2];
            let output = v[3];
            let reasoning = v[4];
            if (exists|i: int| 0 <= i < 6 && v[i] < 0) || cached > input || reasoning > output {
                Err(Error::InvalidCategories)
            } else if rates.cache_write_policy == CacheWritePolicy::Unknown && writes != 0 {
                Err(Error::UnknownCacheWrite)
            } else if rates.cache_write_policy == CacheWritePolicy::IncludedInputDisjoint && input - cached - writes < 0 {
                Err(Error::InvalidCategories)
            } else if rates.reasoning_policy == ReasoningPolicy::Unknown && reasoning != 0 {
                Err(Error::UnknownReasoning)
            } else {
                let ordinary_input = if rates.cache_write_policy == CacheWritePolicy::IncludedInputDisjoint {
                    input - cached - writes
                } else {
                    input - cached
                };
                let separate = rates.reasoning_policy == ReasoningPolicy::Separate;
                Ok(seq![
                    ordinary_input as i64,
                    cached,
                    writes,
                    (if separate { output - reasoning } else { output as int }) as i64,
                    (if separate { reasoning } else { 0i64 }),
                ])
            }
        },
    }
}

/// The five rates in billable-quantity order.
pub open spec fn rate_row(rates: Rates) -> Seq<i64> {
    seq![rates.input, rates.cached_input, rates.cache_write, rates.output, rates.reasoning]
}

/// The exact estimated cost of a usage record in trillionths of a USD.
pub open spec fn valuation(rates: Rates, tokens: &Tokens) -> Result<i128, Error> {
    match billable(rates, tokens) {
        Err(e) => Err(e),
        Ok(q) => match checked_sum(products(q, rate_row(rates))) {
            Some(total) => Ok(total as i128),
            None => Err(Error::Overflow),
        },
    }
}

/// Amounts per displayed category: input, cached input, cache writes, and output with
/// any separately priced reasoning.
pub open spec fn category_amounts(rates: Rates, tokens: &Tokens) -> Result<Seq<i128>, Error> {
    match billable(rates, tokens) {
        Err(e) => Err(e),
        Ok(q) => {
            let p = products(q, rate_row(rates));
            if i128::MIN <= p[3] + p[4] <= i128::MAX {
                Ok(seq![p[0] as i128, p[1] as i128, p[2] as i128, (p[3] + p[4]) as i128])
            } else {
                Err(Error::Overflow)
            }
        },
    }
}

/// The rates of the research hypotheses: reasoning at output's price unless priced separately.
pub open spec fn hypothesis_rates(rates: Rates) -> Seq<i64> {
    seq![
        rates.input,
        rates.cached_input,
        rates.cache_write,
        rates.output,
        if rates.reasoning_policy == ReasoningPolicy::Separate { rates.reasoning } else { rates.output },
    ]
}

proof fn lemma_product_bounds(a: i64, b: i64)
    ensures
        -0x4000_0000_0000_0000_0000_0000_0000_0000 <= a * b <= 0x4000_0000_0000_0000_0000_0000_0000_0000,
{
    assert(-0x8000_0000_0000_0000 <= a <= 0x7fff_ffff_ffff_ffff);
    assert(-0x8000_0000_0000_0000 <= b <= 0x7fff_ffff_ffff_ffff);
    assert(-0x4000_0000_0000_0000_0000_0000_0000_0000 <= a * b <= 0x4000_0000_0000_0000_0000_0000_0000_0000) by (nonlinear_arith)
        requires
            -0x8000_0000_0000_0000 <= a <= 0x7fff_ffff_ffff_ffff,
            -0x8000_0000_0000_0000 <= b <= 0x7fff_ffff_ffff_ffff,
    ;
}

fn checked_products(quantities: [i64; 5], rates: [i64; 5]) -> (result: Option<i128>)
    ensures
        match checked_sum(products(quantities@, rates@)) {
            Some(total) => result == Some(total as i128),
            None => result is None,
        },
{
    let ghost terms = products(quantities@, rates@);
    let mut sum: i128 = 0;
    let mut i: usize = 0;
    while i < 5
        invariant
            0 <= i <= 5,
            terms == products(quantities@, rates@),
            checked_sum(terms.take(i as int)) == Some(sum as int),
        decreases 5 - i,
    {
        proof {
            lemma_product_bounds(quantities[i as int], rates[i as int]);
            assert(terms.take(i + 1).drop_last() =~= terms.take(i as int));
        }
        let amount = quantities[i] as i128 * rates[i] as i128;
        match sum.checked_add(amount) {
            Some(next) => {
                sum = next;
            }
            None => {
                proof {
                    lemma_checked_sum_stays_none(terms, i as int + 1);
                }
                return None;
            }
        }
        i = i + 1;
    }
    proof {
        assert(terms.take(5) =~= terms);
    }
    Some(sum)
}

/// Once a prefix leaves the `i128` range, the whole checked sum does.
pub proof fn lemma_checked_sum_stays_none(terms: Seq<int>, k: int)
    requires
        0 <= k <= terms.len(),
        checked_sum(terms.take(k)) is None,
    ensures
        checked_sum(terms) is None,
    decreases terms.len() - k,
{
    if k == terms.len() {
        assert(terms.take(k) =~= terms);
    } else {
        assert(terms.take(k + 1).drop_last() =~= terms.take(k));
        lemma_checked_sum_stays_none(terms, k + 1);
    }
}

/// The checked sum of four amounts.
pub open spec fn four_sum(p: Seq<i128>) -> Option<i128> {
    match checked_sum(seq![p[0] as int, p[1] as int, p[2] as int, p[3] as int]) {
        Some(s) => Some(s as i128),
        None => None,
    }
}

/// The exact sum of four amounts, or None when a partial sum leaves `i128`.
pub fn sum_amounts(p: [i128; 4]) -> (result: Option<i128>)
    ensures
        result == four_sum(p@),
{
    let ghost terms = seq![p[0] as int, p[1] as int, p[2] as int, p[3] as int];
    let mut sum: i128 = 0;
    let mut i: usize = 0;
    while i < 4
        invariant
            0 <= i <= 4,
            terms == seq![p[0] as int, p[1] as int, p[2] as int, p[3] as int],
            checked_sum(terms.take(i as int)) == Some(sum as int),
        decreases 4 - i,
    {
        assert(terms.take(i + 1).drop_last() =~= terms.take(i as int));
        match sum.checked_add(p[i]) {
            Some(next) => sum = next,
            None => {
                proof {
                    lemma_checked_sum_stays_none(terms, i as int + 1);
                }
                return None;
            },
        }
        i = i + 1;
    }
    assert(terms.take(4) =~= terms);
    Some(sum)
}

impl Rates {
    /// The five billable quantities under this price version's policies.
    pub fn billable_quantities(&self, tokens: &Tokens) -> (result: Result<[i64; 5], Error>)
        ensures
            match result {
                Ok(q) => billable(*self, tokens) == Ok::<Seq<i64>, Error>(q@),
                Err(e) => billable(*self, tokens) == Err::<Seq<i64>, Error>(e),
            },
    {
        let values = match tokens.values() {
            Some(values) => values,
            None => return Err(Error::MissingCategories),
        };
        let input = values[0];
        let cached = values[1];
        let writes = values[2];
        let output = values[3];
        let reasoning = values[4];
        let mut i: usize = 0;
        while i < 6
            invariant
                0 <= i <= 6,
                tokens.spec_values() == Some(values@),
                forall|j: int| 0 <= j < i ==> values@[j] >= 0,
            decreases 6 - i,
        {
            if values[i] < 0 {
                assert(values@[i as int] < 0);
                return Err(Error::InvalidCategories);
            }
            i = i + 1;
        }
        if cached > input || reasoning > output {
            return Err(Error::InvalidCategories);
        }
        let mut ordinary_input = input - cached;
        match self.cache_write_policy {
            CacheWritePolicy::Unknown => {
                if writes != 0 {
                    return Err(Error::UnknownCacheWrite);
                }
            }
            CacheWritePolicy::IncludedInputDisjoint => {
                if ordinary_input < writes {
                    return Err(Error::InvalidCategories);
                }
                ordinary_input = ordinary_input - writes;
            }
            CacheWritePolicy::Additional => {}
        }
        let (ordinary_output, separate_reasoning) = match self.reasoning_policy {
            ReasoningPolicy::Unknown => {
                if reasoning != 0 {
                    return Err(Error::UnknownReasoning);
                }
                (output, 0i64)
            }
            ReasoningPolicy::Separate => (output - reasoning, reasoning),
            ReasoningPolicy::Included => (output, 0i64),
        };
        let q = [ordinary_input, cached, writes, ordinary_output, separate_reasoning];
        assert(q@ =~= billable(*self, tokens).unwrap());
        Ok(q)
    }

    /// Research component prices: reasoning uses output's price unless a separate
    /// reasoning price was configured. This does not change normal valuation policy.
    pub fn hypothesis_value(&self, components: [i64; 5]) -> (result: Result<i128, Error>)
        ensures
            match checked_sum(products(components@, hypothesis_rates(*self))) {
                Some(total) => result == Ok::<i128, Error>(total as i128),
                None => result == Err::<i128, Error>(Error::Overflow),
            },
    {
        let reasoning = if self.reasoning_policy == ReasoningPolicy::Separate { self.reasoning } else { self.output };
        let rates = [self.input, self.cached_input, self.cache_write, self.output, reasoning];
        assert(rates@ =~= hypothesis_rates(*self));
        match checked_products(components, rates) {
            Some(total) => Ok(total),
            None => Err(Error::Overflow),
        }
    }

    /// The exact estimated cost of a usage record under this price version.
    pub fn value(&self, tokens: &Tokens) -> (result: Result<i128, Error>)
        ensures
            result == valuation(*self, tokens),
    {
        let q = match self.billable_quantities(tokens) {
            Ok(q) => q,
            Err(e) => return Err(e),
        };
        let rates = [self.input, self.cached_input, self.cache_write, self.output, self.reasoning];
        assert(rates@ =~= rate_row(*self));
        match checked_products(q, rates) {
            Some(total) => Ok(total),
            None => Err(Error::Overflow),
        }
    }

    /// The estimated cost split into input, cached input, cache-write and output
    /// amounts (output including separately priced reasoning).
    pub fn breakdown(&self, tokens: &Tokens) -> (result: Result<[i128; 4], Error>)
        ensures
            match result {
                Ok(parts) => category_amounts(*self, tokens) == Ok::<Seq<i128>, Error>(parts@),
                Err(e) => category_amounts(*self, tokens) == Err::<Seq<i128>, Error>(e),
            },
    {
        let q = match self.billable_quantities(tokens) {
            Ok(q) => q,
            Err(e) => return Err(e),
        };
        let ghost p = products(q@, rate_row(*self));
        proof {
            lemma_product_bounds(q[0], self.input);
            lemma_product_bounds(q[1], self.cached_input);
            lemma_product_bounds(q[2], self.cache_write);
            lemma_product_bounds(q[3], self.output);
            lemma_product_bounds(q[4], self.reasoning);
        }
        let input = q[0] as i128 * self.input as i128;
        let cached = q[1] as i128 * self.cached_input as i128;
        let writes = q[2] as i128 * self.cache_write as i128;
        let output = q[3] as i128 * self.output as i128;
        let reasoning = q[4] as i128 * self.reasoning as i128;
        match output.checked_add(reasoning) {
            Some(total_output) => {
                let parts = [input, cached, writes, total_output];
                assert(parts@ =~= category_amounts(*self, tokens).unwrap());
                Ok(parts)
            }
            None => Err(Error::Overflow),
        }
    }

    /// Token quantities per displayed category: ordinary input, cached input, cache
    /// writes, and output including reasoning.
    pub fn quantities(&self, tokens: &Tokens) -> (result: Result<[i64; 4], Error>)
        ensures
            match result {
                Ok(parts) => billable(*self, tokens) is Ok && parts@ == seq![
                    billable(*self, tokens).unwrap()[0],
                    billable(*self, tokens).unwrap()[1],
                    billable(*self, tokens).unwrap()[2],
                    (billable(*self, tokens).unwrap()[3] + billable(*self, tokens).unwrap()[4]) as i64,
                ],
                Err(e) => billable(*self, tokens) == Err::<Seq<i64>, Error>(e),
            },
    {
        let q = match self.billable_quantities(tokens) {
            Ok(q) => q,
            Err(e) => return Err(e),
        };
        let parts = [q[0], q[1], q[2], q[3] + q[4]];
        assert(parts@ =~= seq![q@[0], q@[1], q@[2], (q@[3] + q@[4]) as i64]);
        Ok(parts)
    }
}

/// The plain sum of the terms.
pub open spec fn plain_sum(terms: Seq<int>) -> int
    decreases terms.len(),
{
    if terms.len() == 0 { 0 } else { plain_sum(terms.drop_last()) + terms.last() }
}

proof fn lemma_checked_sum_is_sum(terms: Seq<int>)
    requires
        checked_sum(terms) is Some,
    ensures
        checked_sum(terms) == Some(plain_sum(terms)),
    decreases terms.len(),
{
    if terms.len() > 0 {
        lemma_checked_sum_is_sum(terms.drop_last());
    }
}

/// The category split of an estimated cost adds up exactly to the cost itself.
pub proof fn law_category_split_adds_up(rates: Rates, tokens: &Tokens)
    requires
        valuation(rates, tokens) is Ok,
        category_amounts(rates, tokens) is Ok,
    ensures
        category_amounts(rates, tokens).unwrap()[0] + category_amounts(rates, tokens).unwrap()[1]
            + category_amounts(rates, tokens).unwrap()[2] + category_amounts(rates, tokens).unwrap()[3]
            == valuation(rates, tokens).unwrap(),
{
    let q = billable(rates, tokens).unwrap();
    let p = products(q, rate_row(rates));
    lemma_checked_sum_is_sum(p);
    lemma_product_bounds(q[0], rates.input);
    lemma_product_bounds(q[1], rates.cached_input);
    lemma_product_bounds(q[2], rates.cache_write);
    lemma_product_bounds(q[3], rates.output);
    lemma_product_bounds(q[4], rates.reasoning);
    assert(p[0] == q[0] * rates.input);
    assert(p.drop_last().drop_last().drop_last().drop_last().drop_last() =~= Seq::<int>::empty());
    assert(plain_sum(p) == p[0] + p[1] + p[2] + p[3] + p[4]) by {
        reveal_with_fuel(plain_sum, 6);
    }
}


proof fn lemma_nonnegative_sum(terms: Seq<int>)
    requires
        forall|i: int| 0 <= i < terms.len() ==> terms[i] >= 0,
        plain_sum(terms) <= i128::MAX,
    ensures
        checked_sum(terms) == Some(plain_sum(terms)),
        plain_sum(terms) >= 0,
    decreases terms.len(),
{
    if terms.len() > 0 {
        let front = terms.drop_last();
        lemma_plain_sum_nonnegative(front);
        lemma_nonnegative_sum(front);
    }
}

proof fn lemma_plain_sum_nonnegative(terms: Seq<int>)
    requires
        forall|i: int| 0 <= i < terms.len() ==> terms[i] >= 0,
    ensures
        plain_sum(terms) >= 0,
    decreases terms.len(),
{
    if terms.len() > 0 {
        lemma_plain_sum_nonnegative(terms.drop_last());
    }
}

proof fn lemma_sum_of_five(terms: Seq<int>)
    requires
        terms.len() == 5,
    ensures
        plain_sum(terms) == terms[0] + terms[1] + terms[2] + terms[3] + terms[4],
{
    assert(terms.drop_last().drop_last().drop_last().drop_last().drop_last() =~= Seq::<int>::empty());
    reveal_with_fuel(plain_sum, 6);
}

/// Valuation is additive: under validated rates, the cost of two records' summed
/// counters is the sum of their costs, whenever those sums fit.
pub proof fn law_value_is_additive(rates: Rates, a: &Tokens, b: &Tokens, sum: &Tokens)
    requires
        rates_valid(rates),
        valuation(rates, a) is Ok,
        valuation(rates, b) is Ok,
        sum.spec_values() matches Some(s) && s.len() == 6
            && forall|i: int| 0 <= i < 6 ==> s[i] == a.spec_values().unwrap()[i] + b.spec_values().unwrap()[i],
        i128::MIN <= valuation(rates, a).unwrap() + valuation(rates, b).unwrap() <= i128::MAX,
    ensures
        valuation(rates, sum) == Ok::<i128, Error>((valuation(rates, a).unwrap() + valuation(rates, b).unwrap()) as i128),
{
    let va = a.spec_values().unwrap();
    let vb = b.spec_values().unwrap();
    let vs = sum.spec_values().unwrap();
    let qa = billable(rates, a).unwrap();
    let qb = billable(rates, b).unwrap();
    let qs = billable(rates, sum).unwrap();
    assert(billable(rates, sum) is Ok);
    assert forall|i: int| 0 <= i < 5 implies #[trigger] qs[i] == qa[i] + qb[i] by {}
    let r = rate_row(rates);
    let pa = products(qa, r);
    let pb = products(qb, r);
    let ps = products(qs, r);
    assert forall|i: int| 0 <= i < 5 implies #[trigger] ps[i] == pa[i] + pb[i] && pa[i] >= 0 && pb[i] >= 0 by {
        let x = qa[i] as int;
        let y = qb[i] as int;
        let z = r[i] as int;
        assert((x + y) * z == x * z + y * z && x * z >= 0 && y * z >= 0) by (nonlinear_arith)
            requires
                x >= 0,
                y >= 0,
                z >= 0,
        ;
    }
    lemma_checked_sum_is_sum(pa);
    lemma_checked_sum_is_sum(pb);
    lemma_sum_of_five(pa);
    lemma_sum_of_five(pb);
    lemma_sum_of_five(ps);
    assert(plain_sum(ps) == plain_sum(pa) + plain_sum(pb));
    lemma_nonnegative_sum(ps);
}

} // verus!
