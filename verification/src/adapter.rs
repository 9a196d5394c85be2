//! Allowlisted projections of modern usage records. Unknown payload fields are never retained.
use crate::calendar::{parse_rfc3339, rfc3339_instant};
use crate::text::{owned, str_eq};
use vstd::prelude::*;

verus! {

/// Version tag of this adapter's normalized projection.
pub const VERSION: &'static str = "modern-1";

/// Canonical UTC ordering of a usage timestamp, independent of timezone spelling or
/// fractional precision.
pub open spec fn instant_of(timestamp: Seq<char>) -> Result<(i64, u32), &'static str> {
    match rfc3339_instant(timestamp) {
        Some(instant) => Ok(instant),
        None => Err("Invalid usage timestamp"),
    }
}

pub fn observation_time(timestamp: &str) -> (result: Result<(i64, u32), &'static str>)
    ensures
        result == instant_of(timestamp@),
        result matches Ok((_, nanos)) ==> nanos < 1_000_000_000,
        result matches Ok((seconds, _)) ==> -1_000_000_000_000 <= seconds <= 1_000_000_000_000,
{
    match parse_rfc3339(timestamp) {
        Some(instant) => Ok(instant),
        None => Err("Invalid usage timestamp"),
    }
}

/// A token counter as it appeared in a record: absent, explicitly null, or a known value.
#[derive(Debug, Clone, PartialEq, Eq)]
pub enum Counter {
    Missing,
    Null,
    Known(i64),
}

impl Counter {
    /// The known value, if any.
    pub open spec fn spec_value(&self) -> Option<i64> {
        match self {
            Counter::Known(n) => Some(*n),
            _ => None,
        }
    }

    /// True only for a counter absent from its record.
    pub fn missing(&self) -> (result: bool)
        ensures
            result == (*self is Missing),
    {
        match self {
            Counter::Missing => true,
            _ => false,
        }
    }

    pub fn value(&self) -> (result: Option<i64>)
        ensures
            result == self.spec_value(),
    {
        match self {
            Counter::Known(n) => Some(*n),
            _ => None,
        }
    }
}

/// The six token categories of one usage record or thread endpoint.
#[derive(Debug, Clone, PartialEq, Eq)]
pub struct Tokens {
    pub input_tokens: Counter,
    pub cached_input_tokens: Counter,
    pub cache_write_input_tokens: Counter,
    pub output_tokens: Counter,
    pub reasoning_output_tokens: Counter,
    pub total_tokens: Counter,
}

impl Tokens {
    /// All six categories in the order input, cached input, cache writes, output,
    /// reasoning, total; None when any category is missing or null.
    pub open spec fn spec_values(&self) -> Option<Seq<i64>> {
        if self.input_tokens.spec_value() is Some && self.cached_input_tokens.spec_value() is Some
            && self.cache_write_input_tokens.spec_value() is Some
            && self.output_tokens.spec_value() is Some
            && self.reasoning_output_tokens.spec_value() is Some
            && self.total_tokens.spec_value() is Some {
            Some(
                seq![
                    self.input_tokens.spec_value().unwrap(),
                    self.cached_input_tokens.spec_value().unwrap(),
                    self.cache_write_input_tokens.spec_value().unwrap(),
                    self.output_tokens.spec_value().unwrap(),
                    self.reasoning_output_tokens.spec_value().unwrap(),
                    self.total_tokens.spec_value().unwrap(),
                ],
            )
        } else {
            None
        }
    }

    pub fn values(&self) -> (result: Option<[i64; 6]>)
        ensures
            match result {
                Some(values) => self.spec_values() == Some(values@),
                None => self.spec_values() is None,
            },
    {
        let input = match self.input_tokens.value() { Some(v) => v, None => return None };
        let cached = match self.cached_input_tokens.value() { Some(v) => v, None => return None };
        let writes = match self.cache_write_input_tokens.value() { Some(v) => v, None => return None };
        let output = match self.output_tokens.value() { Some(v) => v, None => return None };
        let reasoning = match self.reasoning_output_tokens.value() { Some(v) => v, None => return None };
        let total = match self.total_tokens.value() { Some(v) => v, None => return None };
        let values = [input, cached, writes, output, reasoning, total];
        assert(values@ =~= seq![input, cached, writes, output, reasoning, total]);
        Some(values)
    }
}

/// One modern usage record: its identities, the invocation's own token delta and
/// the thread's cumulative endpoint.
#[derive(Debug, Clone, PartialEq, Eq)]
pub struct Usage {
    pub thread_id: String,
    pub session_id: Option<String>,
    pub turn_id: Option<String>,
    pub root_turn_id: Option<String>,
    pub response_id: Option<String>,
    pub usage: Tokens,
    pub thread_token_usage: Tokens,
}

/// Session metadata. `spawn_parent` is the parent named by a subagent's spawn
/// source, as the record carried it.
#[derive(Debug, Clone)]
pub struct Metadata {
    pub id: String,
    pub session_id: Option<String>,
    pub parent_thread_id: Option<String>,
    pub nested_parent_thread_id: Option<String>,
    pub cwd: Option<String>,
    pub workspace_roots: Option<Vec<String>>,
    pub cli_version: Option<String>,
    pub spawn_parent: Option<String>,
}

/// Turn metadata.
#[derive(Debug, Clone)]
pub struct Context {
    pub turn_id: String,
    pub model: Option<String>,
    pub cwd: Option<String>,
    pub workspace_roots: Option<Vec<String>>,
}

/// One legacy rate-limit window; the used percentage keeps the record's own
/// decimal spelling.
#[derive(Debug, Clone)]
pub struct LimitWindow {
    pub window_minutes: Option<i64>,
    pub used_percent: Option<String>,
    pub resets_at: Option<i64>,
}

/// The payload of an event envelope.
#[derive(Debug, Clone)]
pub struct EventPayload {
    pub kind: String,
    pub limit_id: Option<String>,
    pub primary: Option<LimitWindow>,
    pub secondary: Option<LimitWindow>,
}

/// What one JSONL record contributes.
#[derive(Debug, Clone)]
pub enum Record {
    Metadata(Metadata),
    Context(Context),
    Usage { timestamp: String, usage: Usage },
    Legacy { timestamp: Option<String>, windows: Vec<(Option<String>, String, LimitWindow)> },
    Ignore,
    UnsupportedEnvelope,
}

/// How an envelope's payload is read.
#[derive(Debug, Clone, Copy, PartialEq, Eq, Structural)]
pub enum EnvelopeKind {
    Metadata,
    Context,
    Usage,
    Event,
    Ignore,
    Unsupported,
}

/// The kind of an envelope type name.
pub open spec fn kind_of(name: Seq<char>) -> EnvelopeKind {
    if name == "session_meta"@ {
        EnvelopeKind::Metadata
    } else if name == "turn_context"@ {
        EnvelopeKind::Context
    } else if name == "token_usage_record"@ {
        EnvelopeKind::Usage
    } else if name == "event_msg"@ {
        EnvelopeKind::Event
    } else if name == "response_item"@ || name == "compacted"@ {
        EnvelopeKind::Ignore
    } else {
        EnvelopeKind::Unsupported
    }
}

/// The length of a text in UTF-8 bytes, as `str::len` reports it.
pub open spec fn byte_len(text: Seq<char>) -> usize {
    vstd::utf8::encode_utf8(text).len() as usize
}

/// The kind of an envelope by its type name.
pub fn envelope_kind(name: &str) -> (result: EnvelopeKind)
    ensures
        result == kind_of(name@),
{
    if str_eq(name, "session_meta") {
        EnvelopeKind::Metadata
    } else if str_eq(name, "turn_context") {
        EnvelopeKind::Context
    } else if str_eq(name, "token_usage_record") {
        EnvelopeKind::Usage
    } else if str_eq(name, "event_msg") {
        EnvelopeKind::Event
    } else if str_eq(name, "response_item") || str_eq(name, "compacted") {
        EnvelopeKind::Ignore
    } else {
        EnvelopeKind::Unsupported
    }
}

/// Session metadata as a record: a subagent's spawn parent becomes the nested
/// parent, and the direct session identity must hold 1 to 512 bytes.
pub fn metadata_record(meta: Option<Metadata>) -> (result: Result<Record, &'static str>)
    ensures
        match meta {
            None => result == Err::<Record, &'static str>("Invalid session metadata"),
            Some(m) => if m.id@.len() == 0 || byte_len(m.id@) > 512 {
                result == Err::<Record, &'static str>("Missing direct session identity")
            } else {
                result matches Ok(Record::Metadata(r)) && r == (Metadata {
                    nested_parent_thread_id: if m.spawn_parent is Some { m.spawn_parent } else { m.nested_parent_thread_id },
                    spawn_parent: None,
                    ..m
                })
            },
        },
{
    let mut meta = match meta {
        Some(m) => m,
        None => return Err("Invalid session metadata"),
    };
    if let Some(parent) = meta.spawn_parent.take() {
        meta.nested_parent_thread_id = Some(parent);
    }
    if meta.id.as_str().is_empty() || meta.id.as_str().len() > 512 {
        return Err("Missing direct session identity");
    }
    Ok(Record::Metadata(meta))
}

/// Turn metadata as a record.
pub fn context_record(context: Option<Context>) -> (result: Result<Record, &'static str>)
    ensures
        match context {
            None => result == Err::<Record, &'static str>("Invalid turn metadata"),
            Some(c) => result == Ok::<Record, &'static str>(Record::Context(c)),
        },
{
    match context {
        Some(c) => Ok(Record::Context(c)),
        None => Err("Invalid turn metadata"),
    }
}

/// A usage record needs a parsed payload, a timestamp of 1 to 64 bytes that reads
/// as RFC 3339, and a direct thread identity of 1 to 512 bytes.
pub fn usage_record(usage: Option<Usage>, timestamp: Option<String>) -> (result: Result<Record, &'static str>)
    ensures
        match (usage, timestamp) {
            (None, _) => result == Err::<Record, &'static str>("Unsupported modern usage shape"),
            (Some(_), None) => result == Err::<Record, &'static str>("Missing usage timestamp"),
            (Some(u), Some(t)) => if t@.len() == 0 || byte_len(t@) > 64 {
                result == Err::<Record, &'static str>("Missing usage timestamp")
            } else if instant_of(t@) is Err {
                result == Err::<Record, &'static str>("Invalid usage timestamp")
            } else if u.thread_id@.len() == 0 || byte_len(u.thread_id@) > 512 {
                result == Err::<Record, &'static str>("Missing direct thread identity")
            } else {
                result == Ok::<Record, &'static str>(Record::Usage { timestamp: t, usage: u })
            },
        },
{
    let usage = match usage {
        Some(u) => u,
        None => return Err("Unsupported modern usage shape"),
    };
    let timestamp = match timestamp {
        Some(t) => t,
        None => return Err("Missing usage timestamp"),
    };
    if timestamp.as_str().is_empty() || timestamp.as_str().len() > 64 {
        return Err("Missing usage timestamp");
    }
    if let Err(e) = observation_time(timestamp.as_str()) {
        return Err(e);
    }
    if usage.thread_id.as_str().is_empty() || usage.thread_id.as_str().len() > 512 {
        return Err("Missing direct thread identity");
    }
    Ok(Record::Usage { timestamp, usage })
}

/// The legacy windows of a rate-limit event: primary, then secondary, each
/// present one tagged with the event's limit identity and its position.
pub open spec fn legacy_windows(event: EventPayload) -> Seq<(Option<String>, Seq<char>, LimitWindow)> {
    let first: Seq<(Option<String>, Seq<char>, LimitWindow)> = match event.primary {
        Some(w) => seq![(event.limit_id, "primary"@, w)],
        None => Seq::empty(),
    };
    let second: Seq<(Option<String>, Seq<char>, LimitWindow)> = match event.secondary {
        Some(w) => seq![(event.limit_id, "secondary"@, w)],
        None => Seq::empty(),
    };
    first + second
}

/// An event record: only `token_count` events carry legacy quota windows.
pub fn event_record(event: Option<EventPayload>, timestamp: Option<String>) -> (result: Result<Record, &'static str>)
    ensures
        match event {
            None => result == Err::<Record, &'static str>("Invalid event envelope"),
            Some(e) => if e.kind@ != "token_count"@ {
                result == Ok::<Record, &'static str>(Record::Ignore)
            } else {
                result matches Ok(Record::Legacy { timestamp: t, windows }) && t == timestamp
                    && windows@.len() == legacy_windows(e).len()
                    && forall|i: int| 0 <= i < windows@.len() ==> {
                        let (id, position, window) = #[trigger] windows@[i];
                        let (eid, eposition, ewindow) = legacy_windows(e)[i];
                        id == eid && position@ == eposition && window == ewindow
                    }
            },
        },
{
    let event = match event {
        Some(e) => e,
        None => return Err("Invalid event envelope"),
    };
    if !str_eq(event.kind.as_str(), "token_count") {
        return Ok(Record::Ignore);
    }
    let ghost expected = legacy_windows(event);
    let mut windows: Vec<(Option<String>, String, LimitWindow)> = Vec::new();
    let EventPayload { kind, limit_id, primary, secondary } = event;
    if let Some(w) = primary {
        windows.push((limit_id.clone(), owned("primary"), w));
    }
    if let Some(w) = secondary {
        windows.push((limit_id, owned("secondary"), w));
    }
    Ok(Record::Legacy { timestamp, windows })
}

} // verus!
