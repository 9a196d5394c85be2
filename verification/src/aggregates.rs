//! Prepared accounting data. Categories are independent projections, not addends.
use crate::text::{decimal, i128_text, owned, strip_prefix};
use vstd::prelude::*;

pub mod analytics;
pub mod session_detail;
pub mod session_list;

verus! {

pub const MAX_PAGE_SIZE: u32 = 50;

/// A keyset page request.
#[derive(Debug, Clone)]
pub struct PageRequest {
    pub after: Option<String>,
    pub limit: u32,
}

impl PageRequest {
    /// A page holds between one and fifty items.
    pub fn validate(&self) -> (result: Result<(), ReadError>)
        ensures
            result is Ok <==> 1 <= self.limit <= MAX_PAGE_SIZE,
            result is Err ==> result == Err::<(), ReadError>(ReadError::InvalidQuery),
    {
        if self.limit == 0 || self.limit > MAX_PAGE_SIZE {
            return Err(ReadError::InvalidQuery);
        }
        Ok(())
    }
}

/// One aggregate read.
#[derive(Debug)]
pub enum Query {
    Global,
    Sessions { page: PageRequest },
    SessionList { query: session_list::Query },
    Session { thread: String },
    SessionModels { thread: String, page: PageRequest },
    SessionTimeline { thread: String, point_budget: Option<u32> },
    Children { thread: String, page: PageRequest },
    Ancestors { thread: String, page: PageRequest },
    Projects { page: PageRequest },
    Models { page: PageRequest },
}

/// Why an aggregate read was refused.
#[derive(Clone, Copy, Debug, PartialEq, Eq, Structural)]
pub enum ReadError {
    HierarchyPending,
    InvalidQuery,
    Storage,
}

/// A subtotal can be useful even when some observations lack this category.
/// None means no known value, including a session with no accepted usage.
#[derive(Clone, Debug, PartialEq, Eq)]
pub struct Category {
    pub known_tokens: Option<String>,
    pub complete: bool,
}

/// The view of an optional decimal text.
pub open spec fn text_of(value: Option<String>) -> Option<Seq<char>> {
    match value {
        Some(v) => Some(v@),
        None => None,
    }
}

/// The decimal text of an optional integer.
pub open spec fn decimal_of(value: Option<int>) -> Option<Seq<char>> {
    match value {
        Some(v) => Some(decimal(v)),
        None => None,
    }
}

impl Category {
    /// A category from a SQL sum, its count of known values and the accepted count.
    pub fn from_sum(sum: Option<i64>, known: i64, accepted: i64) -> (result: Category)
        ensures
            text_of(result.known_tokens) == decimal_of(match sum { Some(n) => Some(n as int), None => None }),
            result.complete == (accepted > 0 && known == accepted),
    {
        Category {
            known_tokens: match sum {
                Some(n) => Some(i128_text(n as i128)),
                None => None,
            },
            complete: accepted > 0 && known == accepted,
        }
    }
}

/// The basis and value of an identity `kind:value`: a confirmed repository, a
/// derived location or an observed model; anything else is unavailable.
pub open spec fn attribution_of(id: Seq<char>) -> (Seq<char>, Option<Seq<char>>) {
    if "repository:"@.is_prefix_of(id) {
        ("confirmedRepository"@, Some(id.skip("repository:"@.len() as int)))
    } else if "location:"@.is_prefix_of(id) {
        ("locationDerived"@, Some(id.skip("location:"@.len() as int)))
    } else if "model:"@.is_prefix_of(id) {
        ("observedModel"@, Some(id.skip("model:"@.len() as int)))
    } else {
        ("unavailable"@, None)
    }
}

/// How an identity was established, read from its prefix.
pub fn attribution(id: String) -> (result: Attribution)
    ensures
        result.id@ == id@,
        result.basis@ == attribution_of(id@).0,
        text_of(result.value) == attribution_of(id@).1,
{
    let (basis, value) = if let Some(rest) = strip_prefix(id.as_str(), "repository:") {
        ("confirmedRepository", Some(owned(rest)))
    } else if let Some(rest) = strip_prefix(id.as_str(), "location:") {
        ("locationDerived", Some(owned(rest)))
    } else if let Some(rest) = strip_prefix(id.as_str(), "model:") {
        ("observedModel", Some(owned(rest)))
    } else {
        ("unavailable", None)
    };
    Attribution { id, basis: owned(basis), value }
}

/// A page read one item past its limit: drops that extra item and answers the
/// cursor of the last kept item; a page within its limit has no next cursor.
pub fn trim_page(ids: &mut Vec<String>, limit: u32) -> (result: Option<String>)
    ensures
        old(ids)@.len() > limit ==> final(ids)@ == old(ids)@.drop_last() && (
            result matches Some(c) && final(ids)@.len() > 0 && c@ == final(ids)@.last()@
                || result is None && final(ids)@.len() == 0),
        old(ids)@.len() <= limit ==> final(ids)@ == old(ids)@ && result is None,
{
    if ids.len() > limit as usize {
        ids.pop();
        if ids.len() > 0 {
            Some(ids[ids.len() - 1].clone())
        } else {
            None
        }
    } else {
        None
    }
}

/// Every token category of a scope.
#[derive(Clone, Debug)]
pub struct Tokens {
    pub total_tokens: Category,
    pub input_tokens: Category,
    pub cached_input_tokens: Category,
    pub cache_write_tokens: Category,
    pub output_tokens: Category,
    pub reasoning_tokens: Category,
}

/// Gaps in what a scope's totals cover.
#[derive(Clone, Debug)]
pub struct Coverage {
    pub incomplete_sessions: u64,
    pub unavailable_sessions: u64,
    pub unresolved_usage: bool,
    pub unknown_model: bool,
    pub unattributed_project: bool,
    pub source_diagnostics: bool,
}

/// Canonical integer in 10^-12 USD. None means no priced accepted usage.
#[derive(Clone, Debug, PartialEq, Eq)]
pub struct EstimatedCost {
    pub known_subtotal: Option<String>,
    pub complete: bool,
}

/// Direct usage of a scope.
#[derive(Clone, Debug)]
pub struct Summary {
    pub tokens: Tokens,
    pub estimated_cost: EstimatedCost,
    pub coverage: Coverage,
    pub observed_at: Option<String>,
    pub observed_sessions: u64,
    pub placeholders: u64,
}

/// One session with its direct and, when the hierarchy is settled, inclusive usage.
#[derive(Clone, Debug)]
pub struct Session {
    pub thread_id: String,
    pub title: Option<String>,
    pub started_at: Option<String>,
    pub ended_at: Option<String>,
    pub duration_seconds: Option<u64>,
    pub first_observed_at: Option<String>,
    pub last_observed_at: Option<String>,
    pub placeholder: bool,
    pub parent_state: String,
    pub parent_thread_id: Option<String>,
    pub project: Attribution,
    pub direct: Summary,
    pub inclusive: Option<Summary>,
}

/// How a project or model identity was established.
#[derive(Clone, Debug, PartialEq, Eq)]
pub struct Attribution {
    pub id: String,
    pub basis: String,
    pub value: Option<String>,
}

/// A project or model with its direct usage.
#[derive(Clone, Debug)]
pub struct Group {
    pub attribution: Attribution,
    pub direct: Summary,
}

/// A page of items; count and direct usage cover the whole selection.
#[derive(Clone, Debug)]
pub struct Page<T> {
    pub items: Vec<T>,
    pub next_cursor: Option<String>,
    pub total_items: u64,
    pub direct: Summary,
}

/// The data of one aggregate read.
#[derive(Debug)]
pub enum Data {
    Global(Summary),
    Sessions(Page<Session>),
    SessionList(session_list::Page),
    Session(Option<Session>),
    SessionModels(Option<session_detail::Models>),
    SessionTimeline(Option<session_detail::Timeline>),
    Projects(Page<Group>),
    Models(Page<Group>),
}

/// An aggregate read with its hierarchy state.
#[derive(Debug)]
pub struct Response {
    pub hierarchy_pending: bool,
    pub hierarchy_revision: i64,
    pub data: Data,
    pub coverage_note: &'static str,
}

} // verus!
