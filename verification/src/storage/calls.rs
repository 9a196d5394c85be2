//! Invocation rows: each accepted observation becomes one call with its category
//! split, and the selection's totals cover every matching call, not just a page.
use crate::adapter::{byte_len, Counter, Tokens, Usage};
use crate::aggregates::{self, decimal_of, text_of, Category, EstimatedCost};
use crate::calls::{valid_call_query, window_contains, BilledCategory, Call, Categories, Cursor, Query, Summary, Window};
use crate::pricing::{billable, category_amounts, configured_rates, four_sum, sum_amounts, PriceInput, Rates};
use crate::text::{decimal, i128_text, parse_i128, parsed_i128, str_eq};
use crate::weekly::{time_lt, ReadError, Time};
use vstd::prelude::*;

verus! {

pub const NO_SPLIT: &'static str = "No preserved price or usable category split for this invocation";

/// The known value of a counter as an integer.
pub open spec fn counter_int(counter: Counter) -> Option<int> {
    match counter {
        Counter::Known(v) => Some(v as int),
        _ => None,
    }
}

/// A counter as a token category: its decimal value, complete when known.
pub open spec fn counter_category(counter: Counter, category: Category) -> bool {
    &&& text_of(category.known_tokens) == decimal_of(counter_int(counter))
    &&& category.complete == (counter is Known)
}

/// Every recorded counter as a category, unaltered.
pub open spec fn raw_categories(tokens: Tokens, result: aggregates::Tokens) -> bool {
    &&& counter_category(tokens.total_tokens, result.total_tokens)
    &&& counter_category(tokens.input_tokens, result.input_tokens)
    &&& counter_category(tokens.cached_input_tokens, result.cached_input_tokens)
    &&& counter_category(tokens.cache_write_input_tokens, result.cache_write_tokens)
    &&& counter_category(tokens.output_tokens, result.output_tokens)
    &&& counter_category(tokens.reasoning_output_tokens, result.reasoning_tokens)
}

fn counter_category_of(counter: &Counter) -> (result: Category)
    ensures
        counter_category(*counter, result),
{
    match counter.value() {
        Some(n) => Category { known_tokens: Some(i128_text(n as i128)), complete: true },
        None => Category { known_tokens: None, complete: false },
    }
}

/// The recorded token counters of an invocation as categories.
pub fn raw_tokens(tokens: &Tokens) -> (result: aggregates::Tokens)
    ensures
        raw_categories(*tokens, result),
{
    aggregates::Tokens {
        total_tokens: counter_category_of(&tokens.total_tokens),
        input_tokens: counter_category_of(&tokens.input_tokens),
        cached_input_tokens: counter_category_of(&tokens.cached_input_tokens),
        cache_write_tokens: counter_category_of(&tokens.cache_write_input_tokens),
        output_tokens: counter_category_of(&tokens.output_tokens),
        reasoning_tokens: counter_category_of(&tokens.reasoning_output_tokens),
    }
}

/// The rates of a preserved price configuration, when it has one.
pub open spec fn preserved_rates(price: Option<PriceInput>) -> Option<Rates> {
    match price {
        Some(p) => match configured_rates(p) {
            Ok(r) => Some(r),
            Err(_) => None,
        },
        None => None,
    }
}

/// The category split of an invocation: the preserved version's split, kept only
/// when it adds up to the stored amount (or both are absent or unreadable).
pub open spec fn call_parts(usage: Usage, amount: Option<String>, rates: Option<Rates>) -> Option<Seq<i128>> {
    match rates {
        None => None,
        Some(r) => match category_amounts(r, &usage.usage) {
            Err(_) => None,
            Ok(p) => {
                let stored = match amount {
                    Some(a) => parsed_i128(a@),
                    None => None,
                };
                if stored == four_sum(p) { Some(p) } else { None }
            },
        },
    }
}

/// Ordinary input without a price: input less cached input, known only when no
/// cache writes were recorded.
pub open spec fn fallback_input(tokens: Tokens) -> Option<int> {
    match (counter_int(tokens.input_tokens), counter_int(tokens.cached_input_tokens), counter_int(tokens.cache_write_input_tokens)) {
        (Some(input), Some(cached), Some(writes)) => if writes == 0 && i64::MIN <= input - cached <= i64::MAX {
            Some(input - cached)
        } else {
            None
        },
        _ => None,
    }
}

/// Token count of a displayed category: the preserved version's billable split,
/// otherwise the recorded counter.
pub open spec fn call_quantity(usage: Usage, rates: Option<Rates>, index: int) -> Option<int> {
    let priced = match rates {
        Some(r) => match billable(r, &usage.usage) {
            Ok(b) => Some(seq![b[0] as int, b[1] as int, b[2] as int, b[3] + b[4]][index]),
            Err(_) => None,
        },
        None => None,
    };
    match priced {
        Some(q) => Some(q),
        None => if index == 0 {
            fallback_input(usage.usage)
        } else if index == 1 {
            counter_int(usage.usage.cached_input_tokens)
        } else if index == 2 {
            counter_int(usage.usage.cache_write_input_tokens)
        } else {
            counter_int(usage.usage.output_tokens)
        },
    }
}

/// One displayed category of an invocation.
pub open spec fn call_category(usage: Usage, rates: Option<Rates>, parts: Option<Seq<i128>>, index: int, c: BilledCategory) -> bool {
    &&& text_of(c.tokens.known_tokens) == decimal_of(call_quantity(usage, rates, index))
    &&& c.tokens.complete == (call_quantity(usage, rates, index) is Some)
    &&& text_of(c.estimated_cost.known_subtotal) == match parts {
        Some(p) => Some(decimal(p[index] as int)),
        None => None::<Seq<char>>,
    }
    &&& c.estimated_cost.complete == (parts is Some)
}

/// An identifier kept only within a byte limit.
pub open spec fn bounded(value: Option<String>, limit: usize) -> Option<String> {
    match value {
        Some(v) => if byte_len(v@) <= limit { Some(v) } else { None },
        None => None,
    }
}

/// The invocation built from one accepted observation with its stored valuation.
pub open spec fn built_call(
    id: i64,
    time: Time,
    thread_id: String,
    response_id: Option<String>,
    model: Option<String>,
    effort: Option<String>,
    usage: Usage,
    amount: Option<String>,
    version: Option<i64>,
    price: Option<PriceInput>,
    call: Call,
) -> bool {
    let rates = preserved_rates(price);
    let parts = call_parts(usage, amount, rates);
    &&& call.id@ == decimal(id as int)
    &&& call.time == time
    &&& call.thread_id == thread_id
    &&& call.turn_id == bounded(usage.turn_id, 1024)
    &&& call.response_id == bounded(response_id, 1024)
    &&& call.model == bounded(model, 1024)
    &&& call.effort == bounded(effort, 64)
    &&& raw_categories(usage.usage, call.tokens)
    &&& call_category(usage, rates, parts, 0, call.categories.input)
    &&& call_category(usage, rates, parts, 1, call.categories.cached_input)
    &&& call_category(usage, rates, parts, 2, call.categories.cache_writes)
    &&& call_category(usage, rates, parts, 3, call.categories.output)
    &&& call.estimated_cost.known_subtotal == amount
    &&& call.estimated_cost.complete == (amount is Some)
    &&& text_of(call.price_version_id) == match version {
        Some(v) => Some(decimal(v as int)),
        None => None::<Seq<char>>,
    }
    &&& call.price == price
    &&& call.category_reason == if parts is None { Some(NO_SPLIT) } else { None::<&'static str> }
}

fn bounded_text(value: Option<String>, limit: usize) -> (result: Option<String>)
    ensures
        result == bounded(value, limit),
{
    match value {
        Some(v) => if v.as_str().len() <= limit { Some(v) } else { None },
        None => None,
    }
}

fn split_category(quantity: Option<i64>, parts: &Option<[i128; 4]>, index: usize) -> (result: BilledCategory)
    requires
        index < 4,
    ensures
        text_of(result.tokens.known_tokens) == decimal_of(match quantity { Some(q) => Some(q as int), None => None }),
        result.tokens.complete == (quantity is Some),
        text_of(result.estimated_cost.known_subtotal) == match *parts {
            Some(p) => Some(decimal(p[index as int] as int)),
            None => None::<Seq<char>>,
        },
        result.estimated_cost.complete == (parts is Some),
{
    let tokens = match quantity {
        Some(q) => Category { known_tokens: Some(i128_text(q as i128)), complete: true },
        None => Category { known_tokens: None, complete: false },
    };
    let estimated_cost = match parts {
        Some(p) => EstimatedCost { known_subtotal: Some(i128_text(p[index])), complete: true },
        None => EstimatedCost { known_subtotal: None, complete: false },
    };
    BilledCategory { tokens, estimated_cost }
}

fn kept_split(usage: &Usage, amount: &Option<String>, rates: &Option<Rates>) -> (result: Option<[i128; 4]>)
    ensures
        match result {
            Some(p) => call_parts(*usage, *amount, *rates) == Some(p@),
            None => call_parts(*usage, *amount, *rates) is None,
        },
{
    let split = match rates {
        Some(r) => match r.breakdown(&usage.usage) {
            Ok(p) => p,
            Err(_) => return None,
        },
        None => return None,
    };
    let stored = match amount {
        Some(a) => parse_i128(a.as_str()),
        None => None,
    };
    if stored == sum_amounts(split) { Some(split) } else { None }
}

fn quantity_row(usage: &Usage, rates: &Option<Rates>) -> (result: [Option<i64>; 4])
    ensures
        forall|index: int| 0 <= index < 4 ==> match #[trigger] result[index] {
            Some(v) => call_quantity(*usage, *rates, index) == Some(v as int),
            None => call_quantity(*usage, *rates, index) is None,
        },
{
    let priced = match rates {
        Some(r) => match r.quantities(&usage.usage) {
            Ok(q) => Some(q),
            Err(_) => None,
        },
        None => None,
    };
    match priced {
        Some(q) => [Some(q[0]), Some(q[1]), Some(q[2]), Some(q[3])],
        None => {
            let input = usage.usage.input_tokens.value();
            let cached = usage.usage.cached_input_tokens.value();
            let writes = usage.usage.cache_write_input_tokens.value();
            let fallback = match (input, cached, writes) {
                (Some(i), Some(c), Some(w)) => if w == 0 { i.checked_sub(c) } else { None },
                _ => None,
            };
            [fallback, cached, writes, usage.usage.output_tokens.value()]
        },
    }
}

/// One accepted observation as an invocation. A preserved price configuration
/// that no longer validates means the store is inconsistent.
pub fn call(
    id: i64,
    time: Time,
    thread_id: String,
    response_id: Option<String>,
    model: Option<String>,
    effort: Option<String>,
    usage: Usage,
    amount: Option<String>,
    version: Option<i64>,
    price: Option<PriceInput>,
) -> (result: Result<Call, ReadError>)
    ensures
        match result {
            Ok(c) => built_call(id, time, thread_id, response_id, model, effort, usage, amount, version, price, c),
            Err(e) => e == ReadError::Storage && price is Some && configured_rates(price.unwrap()) is Err,
        },
        (price is None || configured_rates(price.unwrap()) is Ok) ==> result is Ok,
{
    let rates = match &price {
        Some(p) => match p.validate() {
            Ok(r) => Some(r),
            Err(_) => return Err(ReadError::Storage),
        },
        None => None,
    };
    let ghost spec_rates = preserved_rates(price);
    assert(rates == spec_rates);
    let parts = kept_split(&usage, &amount, &rates);
    let quantities = quantity_row(&usage, &rates);
    let categories = Categories {
        input: split_category(quantities[0], &parts, 0),
        cached_input: split_category(quantities[1], &parts, 1),
        cache_writes: split_category(quantities[2], &parts, 2),
        output: split_category(quantities[3], &parts, 3),
    };
    let reason = if parts.is_none() { Some(NO_SPLIT) } else { None };
    let version_text = match version {
        Some(v) => Some(i128_text(v as i128)),
        None => None,
    };
    let complete = amount.is_some();
    let tokens = raw_tokens(&usage.usage);
    let Usage { turn_id, .. } = usage;
    Ok(Call {
        id: i128_text(id as i128),
        time,
        thread_id,
        turn_id: bounded_text(turn_id, 1024),
        response_id: bounded_text(response_id, 1024),
        model: bounded_text(model, 1024),
        effort: bounded_text(effort, 64),
        tokens,
        categories,
        estimated_cost: EstimatedCost { known_subtotal: amount, complete },
        price_version_id: version_text,
        price,
        category_reason: reason,
    })
}

/// A running sum of optional decimal amounts: how many values were offered,
/// how many were known, and their exact total.
#[derive(Clone, Copy, Debug)]
pub struct Sum {
    pub value: i128,
    pub known: u64,
    pub count: u64,
}

/// The sum after one more value, or None when a known value is not an integer
/// or the total leaves `i128`.
pub open spec fn sum_add(s: Sum, value: Option<Seq<char>>) -> Option<Sum> {
    match value {
        None => Some(Sum { count: (s.count + 1) as u64, ..s }),
        Some(text) => match parsed_i128(text) {
            None => None,
            Some(v) => if i128::MIN <= s.value + v <= i128::MAX {
                Some(Sum { value: (s.value + v) as i128, known: (s.known + 1) as u64, count: (s.count + 1) as u64 })
            } else {
                None
            },
        },
    }
}

/// A sum's total text: present once anything is known, or when nothing was offered.
pub open spec fn sum_text(s: Sum) -> Option<Seq<char>> {
    if s.known > 0 || s.count == 0 { Some(decimal(s.value as int)) } else { None }
}

/// Room for one more value.
pub open spec fn sum_room(s: Sum) -> bool {
    s.known <= s.count < u64::MAX
}

impl Sum {
    /// Nothing offered yet.
    pub fn new() -> (result: Sum)
        ensures
            result == (Sum { value: 0, known: 0, count: 0 }),
    {
        Sum { value: 0, known: 0, count: 0 }
    }

    /// Offers one more value; a known value must be a decimal integer.
    pub fn add(&mut self, value: Option<&str>) -> (result: Result<(), ReadError>)
        requires
            sum_room(*old(self)),
        ensures
            match sum_add(*old(self), match value { Some(t) => Some(t@), None => None }) {
                Some(next) => result is Ok && *final(self) == next,
                None => result == Err::<(), ReadError>(ReadError::Storage),
            },
    {
        self.count = self.count + 1;
        if let Some(text) = value {
            self.known = self.known + 1;
            let parsed = match parse_i128(text) {
                Some(v) => v,
                None => return Err(ReadError::Storage),
            };
            self.value = match self.value.checked_add(parsed) {
                Some(v) => v,
                None => return Err(ReadError::Storage),
            };
        }
        Ok(())
    }

    /// The exact total, once anything is known or nothing was offered.
    pub fn text(&self) -> (result: Option<String>)
        ensures
            text_of(result) == sum_text(*self),
    {
        if self.known > 0 || self.count == 0 { Some(i128_text(self.value)) } else { None }
    }

    /// The total as an estimated cost: complete when every value was known.
    pub fn cost(&self) -> (result: EstimatedCost)
        ensures
            text_of(result.known_subtotal) == sum_text(*self),
            result.complete == (self.known == self.count),
    {
        EstimatedCost { known_subtotal: self.text(), complete: self.known == self.count }
    }
}

/// Running totals of a selection: the stored cost and each displayed category's
/// tokens and amount.
#[derive(Clone, Copy, Debug)]
pub struct Totals {
    pub cost: Sum,
    pub quantities: [Sum; 4],
    pub amounts: [Sum; 4],
}

/// A displayed category of an invocation by index.
pub open spec fn category_at(c: Categories, index: int) -> BilledCategory {
    if index == 0 {
        c.input
    } else if index == 1 {
        c.cached_input
    } else if index == 2 {
        c.cache_writes
    } else {
        c.output
    }
}

/// The totals after one more invocation, or None when one of its values is not an
/// integer or a total leaves `i128`.
#[verifier::opaque]
pub open spec fn totals_add(t: Totals, call: Call) -> Option<Totals> {
    let q = |i: int| sum_add(t.quantities[i], text_of(category_at(call.categories, i).tokens.known_tokens));
    let a = |i: int| sum_add(t.amounts[i], text_of(category_at(call.categories, i).estimated_cost.known_subtotal));
    match sum_add(t.cost, text_of(call.estimated_cost.known_subtotal)) {
        None => None,
        Some(cost) => if q(0) is Some && a(0) is Some && q(1) is Some && a(1) is Some && q(2) is Some
            && a(2) is Some && q(3) is Some && a(3) is Some {
            Some(Totals {
                cost,
                quantities: [q(0).unwrap(), q(1).unwrap(), q(2).unwrap(), q(3).unwrap()],
                amounts: [a(0).unwrap(), a(1).unwrap(), a(2).unwrap(), a(3).unwrap()],
            })
        } else {
            None
        },
    }
}

/// Every sum has room for `n` more values.
pub open spec fn totals_room(t: Totals, n: int) -> bool {
    &&& t.cost.known <= t.cost.count && t.cost.count + n <= u64::MAX
    &&& forall|i: int| 0 <= i < 4 ==> #[trigger] t.quantities[i].known <= t.quantities[i].count
        && t.quantities[i].count + n <= u64::MAX
    &&& forall|i: int| 0 <= i < 4 ==> #[trigger] t.amounts[i].known <= t.amounts[i].count
        && t.amounts[i].count + n <= u64::MAX
}

/// The totals over a sequence of invocations, in order.
pub open spec fn totals_over(t: Totals, calls: Seq<Call>) -> Option<Totals>
    decreases calls.len(),
{
    if calls.len() == 0 {
        Some(t)
    } else {
        match totals_over(t, calls.drop_last()) {
            Some(before) => totals_add(before, calls.last()),
            None => None,
        }
    }
}

/// The summary a set of totals reports.
pub open spec fn summarized(t: Totals, s: Summary) -> bool {
    &&& text_of(s.estimated_cost.known_subtotal) == sum_text(t.cost)
    &&& s.estimated_cost.complete == (t.cost.known == t.cost.count)
    &&& forall|i: int| 0 <= i < 4 ==> {
        let c = #[trigger] category_at(s.categories, i);
        &&& text_of(c.tokens.known_tokens) == sum_text(t.quantities[i])
        &&& c.tokens.complete == (t.quantities[i].known == t.quantities[i].count)
        &&& text_of(c.estimated_cost.known_subtotal) == sum_text(t.amounts[i])
        &&& c.estimated_cost.complete == (t.amounts[i].known == t.amounts[i].count)
    }
}

fn opt_str(value: &Option<String>) -> (result: Option<&str>)
    ensures
        match result {
            Some(t) => text_of(*value) == Some(t@),
            None => value is None,
        },
{
    match value {
        Some(v) => Some(v.as_str()),
        None => None,
    }
}

proof fn lemma_room_after_add(t: Totals, call: Call, n: int)
    requires
        totals_room(t, n),
        n >= 1,
        totals_add(t, call) is Some,
    ensures
        totals_room(totals_add(t, call).unwrap(), n - 1),
        totals_add(t, call).unwrap().cost.count == t.cost.count + 1,
{
    reveal(totals_add);
    let next = totals_add(t, call).unwrap();
    assert forall|i: int| 0 <= i < 4 implies #[trigger] next.quantities[i].known <= next.quantities[i].count
        && next.quantities[i].count + n - 1 <= u64::MAX by {
        assert(t.quantities[i].known <= t.quantities[i].count);
    }
    assert forall|i: int| 0 <= i < 4 implies #[trigger] next.amounts[i].known <= next.amounts[i].count
        && next.amounts[i].count + n - 1 <= u64::MAX by {
        assert(t.amounts[i].known <= t.amounts[i].count);
    }
}

fn step(s: Sum, value: Option<&str>) -> (result: Result<Sum, ReadError>)
    requires
        sum_room(s),
    ensures
        match sum_add(s, match value { Some(t) => Some(t@), None => None }) {
            Some(next) => result == Ok::<Sum, ReadError>(next),
            None => result == Err::<Sum, ReadError>(ReadError::Storage),
        },
{
    let mut next = s;
    next.add(value)?;
    Ok(next)
}

impl Totals {
    /// Nothing offered yet.
    pub fn new() -> (result: Totals)
        ensures
            result.cost == (Sum { value: 0, known: 0, count: 0 }),
            forall|i: int| 0 <= i < 4 ==> #[trigger] result.quantities[i] == (Sum { value: 0, known: 0, count: 0 })
                && result.amounts[i] == (Sum { value: 0, known: 0, count: 0 }),
    {
        Totals { cost: Sum::new(), quantities: [Sum::new(); 4], amounts: [Sum::new(); 4] }
    }

    /// Adds one invocation's stored cost and its categories' tokens and amounts;
    /// on error the totals are left as they were.
    pub fn add(&mut self, call: &Call) -> (result: Result<(), ReadError>)
        requires
            totals_room(*old(self), 1),
        ensures
            match totals_add(*old(self), *call) {
                Some(next) => result is Ok && *final(self) == next,
                None => result == Err::<(), ReadError>(ReadError::Storage) && *final(self) == *old(self),
            },
    {
        reveal(totals_add);
        let c = &call.categories;
        assert(sum_room(self.quantities[0]) && sum_room(self.quantities[1]) && sum_room(self.quantities[2])
            && sum_room(self.quantities[3]));
        assert(sum_room(self.amounts[0]) && sum_room(self.amounts[1]) && sum_room(self.amounts[2])
            && sum_room(self.amounts[3]));
        let cost = step(self.cost, opt_str(&call.estimated_cost.known_subtotal))?;
        let q0 = step(self.quantities[0], opt_str(&c.input.tokens.known_tokens))?;
        let a0 = step(self.amounts[0], opt_str(&c.input.estimated_cost.known_subtotal))?;
        let q1 = step(self.quantities[1], opt_str(&c.cached_input.tokens.known_tokens))?;
        let a1 = step(self.amounts[1], opt_str(&c.cached_input.estimated_cost.known_subtotal))?;
        let q2 = step(self.quantities[2], opt_str(&c.cache_writes.tokens.known_tokens))?;
        let a2 = step(self.amounts[2], opt_str(&c.cache_writes.estimated_cost.known_subtotal))?;
        let q3 = step(self.quantities[3], opt_str(&c.output.tokens.known_tokens))?;
        let a3 = step(self.amounts[3], opt_str(&c.output.estimated_cost.known_subtotal))?;
        *self = Totals { cost, quantities: [q0, q1, q2, q3], amounts: [a0, a1, a2, a3] };
        Ok(())
    }

    /// The selection's summary.
    pub fn finish(&self) -> (result: Summary)
        ensures
            summarized(*self, result),
    {
        let category = |index: usize| -> (c: BilledCategory)
            requires
                index < 4,
            ensures
                text_of(c.tokens.known_tokens) == sum_text(self.quantities[index as int]),
                c.tokens.complete == (self.quantities[index as int].known == self.quantities[index as int].count),
                text_of(c.estimated_cost.known_subtotal) == sum_text(self.amounts[index as int]),
                c.estimated_cost.complete == (self.amounts[index as int].known == self.amounts[index as int].count),
        {
            BilledCategory {
                tokens: Category {
                    known_tokens: self.quantities[index].text(),
                    complete: self.quantities[index].known == self.quantities[index].count,
                },
                estimated_cost: self.amounts[index].cost(),
            }
        };
        let result = Summary {
            estimated_cost: self.cost.cost(),
            categories: Categories {
                input: category(0),
                cached_input: category(1),
                cache_writes: category(2),
                output: category(3),
            },
        };
        assert forall|i: int| 0 <= i < 4 implies {
            let c = #[trigger] category_at(result.categories, i);
            &&& text_of(c.tokens.known_tokens) == sum_text(self.quantities[i])
            &&& c.tokens.complete == (self.quantities[i].known == self.quantities[i].count)
            &&& text_of(c.estimated_cost.known_subtotal) == sum_text(self.amounts[i])
            &&& c.estimated_cost.complete == (self.amounts[i].known == self.amounts[i].count)
        } by {
            if i == 0 {} else if i == 1 {} else if i == 2 {} else {}
        }
        result
    }
}

/// A continuation cursor belongs to the query: the same window and filters, a
/// position inside the window, and a positive observation id.
pub open spec fn cursor_fits(query: Query, cursor: Cursor) -> bool {
    &&& cursor.window == (Window { start: query.start, end: query.end })
    &&& text_of(cursor.model) == text_of(query.model)
    &&& text_of(cursor.thread) == text_of(query.thread)
    &&& window_contains(Window { start: query.start, end: query.end }, cursor.time)
    &&& cursor.id > 0
}

fn same_text(a: &Option<String>, b: &Option<String>) -> (result: bool)
    ensures
        result == (text_of(*a) == text_of(*b)),
{
    match (a, b) {
        (Some(x), Some(y)) => str_eq(x.as_str(), y.as_str()),
        (None, None) => true,
        _ => false,
    }
}

fn copy_text(value: &Option<String>) -> (result: Option<String>)
    ensures
        result == *value,
{
    match value {
        Some(v) => Some(v.clone()),
        None => None,
    }
}

/// A query is accepted when it is valid and any cursor belongs to it.
pub fn accept_query(query: &Query, cursor: Option<&Cursor>) -> (result: Result<(), ReadError>)
    ensures
        result is Ok <==> valid_call_query(*query) && match cursor {
            Some(c) => cursor_fits(*query, *c),
            None => true,
        },
        result is Err ==> result == Err::<(), ReadError>(ReadError::InvalidQuery),
{
    query.validate()?;
    if let Some(c) = cursor {
        let window = query.window();
        if c.window != window || !same_text(&c.model, &query.model) || !same_text(&c.thread, &query.thread)
            || !window.contains(c.time) || c.id <= 0 {
            return Err(ReadError::InvalidQuery);
        }
    }
    Ok(())
}

/// The observation id of an invocation, read back from its text.
pub open spec fn call_id(call: Call) -> Option<i64> {
    match parsed_i128(call.id@) {
        Some(v) => if i64::MIN <= v <= i64::MAX { Some(v as i64) } else { None },
        None => None,
    }
}

/// An invocation lies after the cursor in (time, id) order.
pub open spec fn beyond(call: Call, cursor: Option<Cursor>) -> bool {
    match cursor {
        None => true,
        Some(c) => time_lt(c.time, call.time) || (call.time == c.time && call_id(call).unwrap() > c.id),
    }
}

/// The invocations after the cursor, in order.
pub open spec fn kept(calls: Seq<Call>, cursor: Option<Cursor>) -> Seq<Call>
    decreases calls.len(),
{
    if calls.len() == 0 {
        Seq::empty()
    } else if beyond(calls.last(), cursor) {
        kept(calls.drop_last(), cursor).push(calls.last())
    } else {
        kept(calls.drop_last(), cursor)
    }
}

/// Every invocation's id reads back as an `i64`.
pub open spec fn ids_readable(calls: Seq<Call>) -> bool {
    forall|i: int| 0 <= i < calls.len() ==> #[trigger] call_id(calls[i]) is Some
}

/// The page size of a query: 50 unless given.
pub open spec fn page_limit(query: Query) -> int {
    match query.limit {
        Some(l) => l as int,
        None => 50,
    }
}

/// Zeroed totals.
pub open spec fn empty_totals() -> Totals {
    let zero = Sum { value: 0, known: 0, count: 0 };
    Totals { cost: zero, quantities: [zero, zero, zero, zero], amounts: [zero, zero, zero, zero] }
}

/// One selected page of invocations, with the count and totals of the whole
/// selection and where the next page continues.
#[derive(Clone, Debug)]
pub struct Selection {
    pub items: Vec<Call>,
    pub total_items: u64,
    pub summary: Summary,
    pub next: Option<Cursor>,
}

/// The selection a query makes of its window's invocations, in (time, id) order.
pub open spec fn selected(query: Query, cursor: Option<Cursor>, calls: Seq<Call>, selection: Selection) -> bool {
    let after = kept(calls, cursor);
    let limit = page_limit(query);
    let shown = if after.len() < limit { after.len() as int } else { limit };
    &&& selection.total_items == calls.len()
    &&& summarized(totals_over(empty_totals(), calls).unwrap(), selection.summary)
    &&& selection.items@ == after.take(shown)
    &&& selection.next == if after.len() > limit && limit > 0 {
        Some(Cursor {
            window: Window { start: query.start, end: query.end },
            model: query.model,
            thread: query.thread,
            time: after[limit - 1].time,
            id: call_id(after[limit - 1]).unwrap(),
        })
    } else {
        None::<Cursor>
    }
}

fn call_id_of(call: &Call) -> (result: Result<i64, ReadError>)
    ensures
        match call_id(*call) {
            Some(v) => result == Ok::<i64, ReadError>(v),
            None => result == Err::<i64, ReadError>(ReadError::Storage),
        },
{
    match parse_i128(call.id.as_str()) {
        Some(v) => if i64::MIN as i128 <= v && v <= i64::MAX as i128 { Ok(v as i64) } else { Err(ReadError::Storage) },
        None => Err(ReadError::Storage),
    }
}

proof fn lemma_totals_over_none(calls: Seq<Call>, k: int)
    requires
        0 <= k <= calls.len(),
        totals_over(empty_totals(), calls.take(k)) is None,
    ensures
        totals_over(empty_totals(), calls) is None,
    decreases calls.len() - k,
{
    if k == calls.len() {
        assert(calls.take(k) =~= calls);
    } else {
        assert(calls.take(k + 1).drop_last() =~= calls.take(k));
        lemma_totals_over_none(calls, k + 1);
    }
}

/// What a page holds after some prefix of the window's invocations.
pub open spec fn paged(
    totals: Totals,
    items: Seq<Call>,
    more: bool,
    last: Option<(Time, i64)>,
    position: Option<Cursor>,
    prefix: Seq<Call>,
    limit: int,
) -> bool {
    let after = kept(prefix, position);
    &&& totals_over(empty_totals(), prefix) == Some(totals)
    &&& ids_readable(prefix)
    &&& items == after.take(if after.len() < limit { after.len() as int } else { limit })
    &&& more == (after.len() > limit)
    &&& (items.len() > 0 ==> last == Some((items.last().time, call_id(items.last()).unwrap())))
    &&& (items.len() == 0 ==> last is None)
}

fn absorb(
    totals: &mut Totals,
    items: &mut Vec<Call>,
    more: &mut bool,
    last: &mut Option<(Time, i64)>,
    call: Call,
    cursor: Option<&Cursor>,
    limit: usize,
    Ghost(prefix): Ghost<Seq<Call>>,
) -> (result: Result<(), ReadError>)
    requires
        paged(*old(totals), old(items)@, *old(more), *old(last), match cursor { Some(c) => Some(*c), None => None }, prefix, limit as int),
        totals_room(*old(totals), 1),
    ensures
        match result {
            Ok(()) => paged(*final(totals), final(items)@, *final(more), *final(last),
                match cursor { Some(c) => Some(*c), None => None }, prefix.push(call), limit as int)
                && totals_add(*old(totals), call) is Some
                && *final(totals) == totals_add(*old(totals), call).unwrap(),
            Err(e) => e == ReadError::Storage && (totals_add(*old(totals), call) is None || call_id(call) is None),
        },
        (totals_add(*old(totals), call) is Some && call_id(call) is Some) ==> result is Ok,
{
    let ghost position = match cursor { Some(c) => Some(*c), None => None };
    let ghost extended = prefix.push(call);
    assert(extended.drop_last() =~= prefix);
    assert(extended.last() == call);
    totals.add(&call)?;
    let id = call_id_of(&call)?;
    assert(ids_readable(extended)) by {
        assert forall|i: int| 0 <= i < extended.len() implies #[trigger] call_id(extended[i]) is Some by {
            if i < prefix.len() {
                assert(extended[i] == prefix[i]);
            }
        }
    }
    let skip = match cursor {
        Some(c) => !(c.time.before(&call.time) || (call.time == c.time && id > c.id)),
        None => false,
    };
    assert(skip == !beyond(call, position));
    let ghost after = kept(prefix, position);
    if !skip {
        assert(kept(extended, position) == after.push(call));
        if items.len() < limit {
            assert(items@ =~= after);
            let time = call.time;
            items.push(call);
            *last = Some((time, id));
            assert(items@ =~= after.push(call));
            assert(after.push(call).take(after.len() + 1 as int) =~= after.push(call));
        } else {
            assert(after.len() >= limit);
            assert(after.push(call).take(limit as int) =~= after.take(limit as int));
            *more = true;
        }
    } else {
        assert(kept(extended, position) == after);
    }
    Ok(())
}

fn reverse(calls: Vec<Call>) -> (result: Vec<Call>)
    ensures
        result@.len() == calls@.len(),
        forall|t: int| 0 <= t < result@.len() ==> #[trigger] result@[t] == calls@[calls@.len() - 1 - t],
{
    let ghost all = calls@;
    let mut reversed: Vec<Call> = Vec::new();
    let mut rest = calls;
    while rest.len() > 0
        invariant
            rest@.len() + reversed@.len() == all.len(),
            rest@ == all.take(rest@.len() as int),
            forall|t: int| 0 <= t < reversed@.len() ==> #[trigger] reversed@[t] == all[all.len() - 1 - t],
        decreases rest@.len(),
    {
        let item = rest.pop().unwrap();
        reversed.push(item);
    }
    reversed
}

#[verifier::rlimit(30)]
#[verifier::loop_isolation(false)]
/// Pages through the window's invocations (in time, id order): every one counts
/// toward the totals, those after the cursor fill the page, and one more than
/// fits marks where the next page continues.
pub fn select(query: &Query, cursor: Option<&Cursor>, calls: Vec<Call>) -> (result: Result<Selection, ReadError>)
    requires
        calls.len() < u64::MAX,
    ensures
        match result {
            Ok(selection) => totals_over(empty_totals(), calls@) is Some && ids_readable(calls@)
                && selected(*query, match cursor { Some(c) => Some(*c), None => None }, calls@, selection),
            Err(e) => e == ReadError::Storage
                && (totals_over(empty_totals(), calls@) is None || !ids_readable(calls@)),
        },
        (totals_over(empty_totals(), calls@) is Some && ids_readable(calls@)) ==> result is Ok,
{
    let ghost all = calls@;
    let ghost position = match cursor { Some(c) => Some(*c), None => None };
    let n = calls.len();
    let mut reversed = reverse(calls);
    let limit: usize = match query.limit {
        Some(l) => l as usize,
        None => 50,
    };
    let mut totals = Totals::new();
    assert(totals.quantities =~= empty_totals().quantities);
    assert(totals.amounts =~= empty_totals().amounts);
    assert(totals == empty_totals());
    let mut items: Vec<Call> = Vec::new();
    let mut more = false;
    let mut last: Option<(Time, i64)> = None;
    let mut index: usize = 0;
    assert(all.take(0) =~= Seq::<Call>::empty());
    assert(kept(all.take(0), position) =~= Seq::<Call>::empty());
    assert(items@ =~= kept(all.take(0), position).take(0));
    while index < n
        invariant
            n == all.len(),
            n < u64::MAX,
            0 <= index <= n,
            reversed@.len() == n - index,
            forall|t: int| 0 <= t < reversed@.len() ==> #[trigger] reversed@[t] == all[all.len() - 1 - t],
            limit == page_limit(*query),
            position == match cursor { Some(c) => Some(*c), None => None::<Cursor> },
            paged(totals, items@, more, last, position, all.take(index as int), limit as int),
            totals.cost.count == index,
            totals_room(totals, n - index),
        decreases n - index,
    {
        let call = reversed.pop().unwrap();
        assert(call == all[index as int]);
        let ghost previous = all.take(index as int);
        assert(all.take(index + 1) =~= previous.push(call));
        let ghost before = totals;
        match absorb(&mut totals, &mut items, &mut more, &mut last, call, cursor, limit, Ghost(previous)) {
            Ok(()) => {},
            Err(e) => {
                proof {
                    if totals_add(before, call) is None {
                        assert(previous.push(call).drop_last() =~= previous);
                        assert(totals_over(empty_totals(), all.take(index + 1)) is None);
                        lemma_totals_over_none(all, index + 1);
                    } else {
                        assert(call_id(all[index as int]) is None);
                        assert(!ids_readable(all));
                    }
                }
                assert(e == ReadError::Storage);
                return Err(e);
            },
        }
        proof {
            lemma_room_after_add(before, call, n - index);
        }
        index = index + 1;
    }
    assert(all.take(n as int) =~= all);
    let ghost after = kept(all, position);
    assert(more ==> items@.len() == limit);
    let next = if more {
        match last {
            Some((time, id)) => Some(Cursor {
                window: query.window(),
                model: copy_text(&query.model),
                thread: copy_text(&query.thread),
                time,
                id,
            }),
            None => None,
        }
    } else {
        None
    };
    Ok(Selection { items, total_items: n as u64, summary: totals.finish(), next })
}


/// Without a preserved price, an invocation shows its recorded counters: cached input,
/// cache writes and output are the recorded counters, and ordinary input is input less
/// cached input when no cache write was recorded.
pub proof fn law_unpriced_call_shows_recorded_counters(
    id: i64,
    time: Time,
    thread_id: String,
    response_id: Option<String>,
    model: Option<String>,
    effort: Option<String>,
    usage: Usage,
    amount: Option<String>,
    version: Option<i64>,
    call: Call,
)
    requires
        built_call(id, time, thread_id, response_id, model, effort, usage, amount, version, None, call),
    ensures
        text_of(call.categories.cached_input.tokens.known_tokens) == decimal_of(counter_int(usage.usage.cached_input_tokens)),
        text_of(call.categories.cache_writes.tokens.known_tokens) == decimal_of(counter_int(usage.usage.cache_write_input_tokens)),
        text_of(call.categories.output.tokens.known_tokens) == decimal_of(counter_int(usage.usage.output_tokens)),
        ({
            let (input, cached) = (counter_int(usage.usage.input_tokens), counter_int(usage.usage.cached_input_tokens));
            input is Some && cached is Some && usage.usage.cache_write_input_tokens == Counter::Known(0)
                && i64::MIN <= input.unwrap() - cached.unwrap() <= i64::MAX
                ==> text_of(call.categories.input.tokens.known_tokens) == Some(decimal(input.unwrap() - cached.unwrap()))
        }),
        call.category_reason == Some(NO_SPLIT),
{
}


/// With a preserved price whose billable split is known, an invocation shows that
/// split: ordinary input, cached input and cache writes as billed, and output together
/// with reasoning output.
pub proof fn law_priced_call_shows_billable_split(
    id: i64,
    time: Time,
    thread_id: String,
    response_id: Option<String>,
    model: Option<String>,
    effort: Option<String>,
    usage: Usage,
    amount: Option<String>,
    version: Option<i64>,
    price: PriceInput,
    call: Call,
)
    requires
        built_call(id, time, thread_id, response_id, model, effort, usage, amount, version, Some(price), call),
        configured_rates(price) is Ok,
        billable(configured_rates(price).unwrap(), &usage.usage) is Ok,
    ensures
        ({
            let b = billable(configured_rates(price).unwrap(), &usage.usage).unwrap();
            &&& text_of(call.categories.input.tokens.known_tokens) == Some(decimal(b[0] as int))
            &&& text_of(call.categories.cached_input.tokens.known_tokens) == Some(decimal(b[1] as int))
            &&& text_of(call.categories.cache_writes.tokens.known_tokens) == Some(decimal(b[2] as int))
            &&& text_of(call.categories.output.tokens.known_tokens) == Some(decimal(b[3] + b[4]))
        }),
{
}

} // verus!
