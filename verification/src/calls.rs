//! One accepted usage delta is one model invocation, never a whole conversation turn.
use crate::aggregates;
use crate::pricing::PriceInput;
use crate::weekly::{time_lt, ReadError, Time};
use vstd::prelude::*;

verus! {

/// A start-exclusive, end-inclusive interval.
#[derive(Clone, Copy, Debug, PartialEq, Eq, Structural)]
pub struct Window {
    pub start: Time,
    pub end: Time,
}

/// An interval is valid when it is nonempty and both nanosecond fields are below 10^9.
pub open spec fn valid_window(w: Window) -> bool {
    time_lt(w.start, w.end) && w.start.nanos < 1_000_000_000 && w.end.nanos < 1_000_000_000
}

/// Membership in `(start, end]`.
pub open spec fn window_contains(w: Window, time: Time) -> bool {
    time_lt(w.start, time) && !time_lt(w.end, time)
}

impl Window {
    pub fn validate(&self) -> (result: Result<(), ReadError>)
        ensures
            result is Ok <==> valid_window(*self),
            result is Err ==> result == Err::<(), ReadError>(ReadError::InvalidQuery),
    {
        if !self.start.before(&self.end) || self.start.nanos >= 1_000_000_000 || self.end.nanos >= 1_000_000_000 {
            Err(ReadError::InvalidQuery)
        } else {
            Ok(())
        }
    }

    pub fn contains(&self, time: Time) -> (result: bool)
        ensures
            result == window_contains(*self, time),
    {
        self.start.before(&time) && !self.end.before(&time)
    }
}

/// A request for a page of invocations.
#[derive(Clone, Debug)]
pub struct Query {
    pub start: Time,
    pub end: Time,
    pub model: Option<String>,
    pub thread: Option<String>,
    pub after: Option<String>,
    pub limit: Option<u32>,
}

pub open spec fn bad_filter(text: Option<String>) -> bool {
    match text {
        Some(t) => t@.len() == 0 || (vstd::utf8::encode_utf8(t@).len() as usize) > 512,
        None => false,
    }
}

/// A query is valid when its window is, its page size is between 1 and 50 (50 when
/// absent), and each filter is nonempty and at most 512 bytes.
pub open spec fn valid_call_query(q: Query) -> bool {
    &&& valid_window(Window { start: q.start, end: q.end })
    &&& match q.limit { Some(l) => 1 <= l <= 50, None => true }
    &&& !bad_filter(q.model)
    &&& !bad_filter(q.thread)
}

fn filter_invalid(text: &Option<String>) -> (result: bool)
    ensures
        result == bad_filter(*text),
{
    match text {
        Some(t) => t.as_str().is_empty() || t.as_str().len() > 512,
        None => false,
    }
}

impl Query {
    pub fn window(&self) -> (result: Window)
        ensures
            result == (Window { start: self.start, end: self.end }),
    {
        Window { start: self.start, end: self.end }
    }

    pub fn validate(&self) -> (result: Result<(), ReadError>)
        ensures
            result is Ok <==> valid_call_query(*self),
            result is Err ==> result == Err::<(), ReadError>(ReadError::InvalidQuery),
    {
        if let Err(e) = self.window().validate() {
            return Err(e);
        }
        let limit = match self.limit {
            Some(l) => l,
            None => 50,
        };
        if !(1 <= limit && limit <= 50) || filter_invalid(&self.model) || filter_invalid(&self.thread) {
            return Err(ReadError::InvalidQuery);
        }
        Ok(())
    }
}

/// Tokens and estimated cost of one displayed category.
#[derive(Clone, Debug)]
pub struct BilledCategory {
    pub tokens: aggregates::Category,
    pub estimated_cost: aggregates::EstimatedCost,
}

/// The displayed categories of an invocation.
#[derive(Clone, Debug)]
pub struct Categories {
    pub input: BilledCategory,
    pub cached_input: BilledCategory,
    pub cache_writes: BilledCategory,
    pub output: BilledCategory,
}

/// One model invocation.
#[derive(Clone, Debug)]
pub struct Call {
    pub id: String,
    pub time: Time,
    pub thread_id: String,
    pub turn_id: Option<String>,
    pub response_id: Option<String>,
    pub model: Option<String>,
    pub effort: Option<String>,
    pub tokens: aggregates::Tokens,
    pub categories: Categories,
    pub estimated_cost: aggregates::EstimatedCost,
    pub price_version_id: Option<String>,
    pub price: Option<PriceInput>,
    pub category_reason: Option<&'static str>,
}

/// Totals over every invocation of the selection, not just the page.
#[derive(Clone, Debug)]
pub struct Summary {
    pub categories: Categories,
    pub estimated_cost: aggregates::EstimatedCost,
}

/// A page of invocations.
#[derive(Clone, Debug)]
pub struct Page {
    pub start: Time,
    pub end: Time,
    pub items: Vec<Call>,
    pub total_items: u64,
    pub summary: Summary,
    pub next_cursor: Option<String>,
}

/// The position after which the next page continues.
#[derive(Clone, Debug)]
pub struct Cursor {
    pub window: Window,
    pub model: Option<String>,
    pub thread: Option<String>,
    pub time: Time,
    pub id: i64,
}

} // verus!
