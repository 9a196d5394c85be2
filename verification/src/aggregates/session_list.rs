//! Bounded, project-grouped direct-session browsing. Dates refer to last accepted usage.
use super::{Attribution, ReadError, Summary, MAX_PAGE_SIZE};
use vstd::prelude::*;

verus! {

/// Session list order.
#[derive(Debug, Clone, Copy, PartialEq, Eq, Structural)]
pub enum Sort {
    Newest,
    Usd,
    Tokens,
}

/// A session list request.
#[derive(Debug, Clone)]
pub struct Query {
    pub limit: u32,
    pub offset: u32,
    pub sort: Sort,
    pub search: Option<String>,
    pub project: Option<String>,
    pub model: Option<String>,
    pub from_seconds: Option<i64>,
    pub before_seconds: Option<i64>,
}

/// UTF-8 length of a text.
pub open spec fn byte_len(text: Option<String>) -> nat {
    match text {
        Some(t) => t@.len(),
        None => 0,
    }
}

pub open spec fn too_long(text: Option<String>) -> bool {
    match text {
        Some(t) => (vstd::utf8::encode_utf8(t@).len() as usize) > 1024,
        None => false,
    }
}

/// A session list request is valid when its page size is within bounds, no filter text
/// exceeds 1024 bytes, and a date window, when both ends are given, is nonempty.
pub open spec fn valid_list_query(q: Query) -> bool {
    &&& 1 <= q.limit <= MAX_PAGE_SIZE
    &&& !too_long(q.search)
    &&& !too_long(q.project)
    &&& !too_long(q.model)
    &&& !(q.from_seconds is Some && q.before_seconds is Some && q.from_seconds.unwrap() >= q.before_seconds.unwrap())
}

fn exceeds(text: &Option<String>) -> (result: bool)
    ensures
        result == too_long(*text),
{
    match text {
        Some(t) => t.as_str().len() > 1024,
        None => false,
    }
}

impl Query {
    pub fn validate(&self) -> (result: Result<(), ReadError>)
        ensures
            result is Ok <==> valid_list_query(*self),
            result is Err ==> result == Err::<(), ReadError>(ReadError::InvalidQuery),
    {
        let window_empty = match (self.from_seconds, self.before_seconds) {
            (Some(a), Some(b)) => a >= b,
            _ => false,
        };
        if self.limit == 0 || self.limit > MAX_PAGE_SIZE || exceeds(&self.search) || exceeds(&self.project)
            || exceeds(&self.model) || window_empty {
            return Err(ReadError::InvalidQuery);
        }
        Ok(())
    }
}

/// One listed session.
#[derive(Debug, Clone)]
pub struct Row {
    pub thread_id: String,
    pub title: Option<String>,
    pub last_observed_at: Option<String>,
    pub duration_seconds: Option<u64>,
    pub project: Attribution,
    pub models: Vec<String>,
    pub model_count: u64,
    pub unknown_model: bool,
    pub direct: Summary,
    pub direct_subagent_count: Option<u64>,
    pub weekly_percentage_impact: Option<String>,
}

/// A page of listed sessions.
#[derive(Debug, Clone)]
pub struct Page {
    pub items: Vec<Row>,
    pub total_items: u64,
    pub offset: u32,
    pub next_offset: Option<u32>,
}

} // verus!
