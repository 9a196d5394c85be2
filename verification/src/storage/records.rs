//! What a decoded record contributes to a session's metadata evidence, and the
//! small decisions taken while a record is applied.
use crate::accounting::{reconcile, reconciliation, ObservationFacts};
use crate::adapter::{instant_of, observation_time, Context, Metadata, Record, Usage};
use crate::text::str_eq;
use vstd::prelude::*;

verus! {

/// One row of metadata evidence: its kind, its value and where it was read.
#[derive(Clone, Debug)]
pub struct Evidence {
    pub kind: &'static str,
    pub value: String,
    pub origin: &'static str,
}

/// The view of evidence rows.
pub open spec fn evidence_views(rows: Seq<Evidence>) -> Seq<(Seq<char>, Seq<char>, Seq<char>)> {
    rows.map_values(|e: Evidence| (e.kind@, e.value@, e.origin@))
}

/// A row for a present, non-empty value.
pub open spec fn row_of(kind: Seq<char>, value: Option<String>, origin: Seq<char>) -> Seq<
    (Seq<char>, Seq<char>, Seq<char>),
> {
    match value {
        Some(v) => if v@.len() > 0 {
            seq![(kind, v@, origin)]
        } else {
            Seq::empty()
        },
        None => Seq::empty(),
    }
}

/// Workspace root rows, skipping empty roots.
pub open spec fn root_rows(roots: Seq<String>, origin: Seq<char>) -> Seq<
    (Seq<char>, Seq<char>, Seq<char>),
>
    decreases roots.len(),
{
    if roots.len() == 0 {
        Seq::empty()
    } else {
        root_rows(roots.drop_last(), origin) + row_of(
            "workspace_root"@,
            Some(roots.last()),
            origin,
        )
    }
}

/// Location rows: the working directory, then each workspace root.
pub open spec fn location_rows(
    cwd: Option<String>,
    roots: Option<Vec<String>>,
    origin: Seq<char>,
) -> Seq<(Seq<char>, Seq<char>, Seq<char>)> {
    row_of("cwd"@, cwd, origin) + match roots {
        Some(r) => root_rows(r@, origin),
        None => Seq::empty(),
    }
}

/// The evidence of session metadata: the direct and the spawn parent, the
/// location, and the CLI version.
pub open spec fn metadata_rows(meta: Metadata) -> Seq<(Seq<char>, Seq<char>, Seq<char>)> {
    row_of("parent"@, meta.parent_thread_id, "session_meta.parent_thread_id"@) + row_of(
        "parent"@,
        meta.nested_parent_thread_id,
        "session_meta.source.subagent.thread_spawn.parent_thread_id"@,
    ) + location_rows(meta.cwd, meta.workspace_roots, "session_meta"@) + row_of(
        "cli_version"@,
        meta.cli_version,
        "session_meta"@,
    )
}

fn push_row(rows: &mut Vec<Evidence>, kind: &'static str, value: &Option<String>, origin: &'static str)
    ensures
        evidence_views(final(rows)@) == evidence_views(old(rows)@) + row_of(kind@, *value, origin@),
{
    match value {
        Some(v) => if v.as_str().unicode_len() > 0 {
            let ghost before = evidence_views(rows@);
            rows.push(Evidence { kind, value: v.clone(), origin });
            assert(evidence_views(rows@) =~= before + row_of(kind@, *value, origin@));
        } else {
            assert(row_of(kind@, *value, origin@) =~= Seq::empty());
            assert(evidence_views(rows@) =~= evidence_views(rows@) + Seq::empty());
        },
        None => {
            assert(evidence_views(rows@) =~= evidence_views(rows@) + Seq::empty());
        },
    }
}

fn push_location(
    rows: &mut Vec<Evidence>,
    cwd: &Option<String>,
    roots: &Option<Vec<String>>,
    origin: &'static str,
)
    ensures
        evidence_views(final(rows)@) == evidence_views(old(rows)@) + location_rows(
            *cwd,
            *roots,
            origin@,
        ),
{
    push_row(rows, "cwd", cwd, origin);
    let ghost after_cwd = evidence_views(rows@);
    match roots {
        Some(list) => {
            let mut i: usize = 0;
            while i < list.len()
                invariant
                    i <= list@.len(),
                    evidence_views(rows@) == after_cwd + root_rows(list@.take(i as int), origin@),
                decreases list@.len() - i,
            {
                let item = Some(list[i].clone());
                push_row(rows, "workspace_root", &item, origin);
                assert(list@.take(i + 1).drop_last() =~= list@.take(i as int));
                assert(evidence_views(rows@) =~= after_cwd + root_rows(list@.take(i + 1), origin@));
                i = i + 1;
            }
            assert(list@.take(list@.len() as int) =~= list@);
        },
        None => {},
    }
    assert(evidence_views(rows@) =~= evidence_views(old(rows)@) + location_rows(
        *cwd,
        *roots,
        origin@,
    ));
}

/// The evidence rows session metadata contributes, in order.
pub fn metadata_evidence(meta: &Metadata) -> (result: Vec<Evidence>)
    ensures
        evidence_views(result@) == metadata_rows(*meta),
{
    let mut rows: Vec<Evidence> = Vec::new();
    push_row(&mut rows, "parent", &meta.parent_thread_id, "session_meta.parent_thread_id");
    push_row(
        &mut rows,
        "parent",
        &meta.nested_parent_thread_id,
        "session_meta.source.subagent.thread_spawn.parent_thread_id",
    );
    push_location(&mut rows, &meta.cwd, &meta.workspace_roots, "session_meta");
    push_row(&mut rows, "cli_version", &meta.cli_version, "session_meta");
    assert(evidence_views(rows@) =~= metadata_rows(*meta));
    rows
}

/// The evidence rows turn metadata contributes: its location, in order.
pub fn context_evidence(context: &Context) -> (result: Vec<Evidence>)
    ensures
        evidence_views(result@) == location_rows(
            context.cwd,
            context.workspace_roots,
            "turn_context"@,
        ),
{
    let mut rows: Vec<Evidence> = Vec::new();
    push_location(&mut rows, &context.cwd, &context.workspace_roots, "turn_context");
    assert(evidence_views(rows@) =~= location_rows(
        context.cwd,
        context.workspace_roots,
        "turn_context"@,
    ));
    rows
}

/// Stored location evidence split into working directories and workspace roots,
/// each in stored order.
pub open spec fn split_kinds(evidence: Seq<(String, String)>) -> (Seq<Seq<char>>, Seq<Seq<char>>)
    decreases evidence.len(),
{
    if evidence.len() == 0 {
        (Seq::empty(), Seq::empty())
    } else {
        let (cwds, roots) = split_kinds(evidence.drop_last());
        let (kind, value) = evidence.last();
        if kind@ == "cwd"@ {
            (cwds.push(value@), roots)
        } else {
            (cwds, roots.push(value@))
        }
    }
}

/// Splits stored `(kind, value)` location evidence for the location resolver.
pub fn split_location_evidence(evidence: Vec<(String, String)>) -> (result: (
    Vec<String>,
    Vec<String>,
))
    ensures
        (crate::text::views(result.0@), crate::text::views(result.1@)) == split_kinds(evidence@),
{
    let mut cwds: Vec<String> = Vec::new();
    let mut roots: Vec<String> = Vec::new();
    let mut i: usize = 0;
    proof {
        reveal_strlit("cwd");
    }
    while i < evidence.len()
        invariant
            i <= evidence@.len(),
            (crate::text::views(cwds@), crate::text::views(roots@)) == split_kinds(
                evidence@.take(i as int),
            ),
        decreases evidence@.len() - i,
    {
        let (kind, value) = (&evidence[i].0, &evidence[i].1);
        assert(evidence@.take(i + 1).drop_last() =~= evidence@.take(i as int));
        let ghost c0 = crate::text::views(cwds@);
        let ghost r0 = crate::text::views(roots@);
        if str_eq(kind.as_str(), "cwd") {
            cwds.push(value.clone());
            assert(crate::text::views(cwds@) =~= c0.push(value@));
        } else {
            roots.push(value.clone());
            assert(crate::text::views(roots@) =~= r0.push(value@));
        }
        i = i + 1;
    }
    assert(evidence@.take(evidence@.len() as int) =~= evidence@);
    (cwds, roots)
}

/// A turn's model conflicts when the turn was already seen with another model.
pub fn model_conflict(existing: &Option<Option<String>>, model: &Option<String>) -> (result: bool)
    ensures
        result == match *existing {
            Some(old) => match (old, *model) {
                (Some(a), Some(b)) => a@ != b@,
                (None, None) => false,
                _ => true,
            },
            None => false,
        },
{
    match existing {
        Some(old) => match (old, model) {
            (Some(a), Some(b)) => !str_eq(a.as_str(), b.as_str()),
            (None, None) => false,
            _ => true,
        },
        None => false,
    }
}

/// A record is retired history when its timestamp lies before the retention floor:
/// legacy quota windows are then dropped and usage is not imported again.
pub open spec fn retired_of(timestamp: Option<Seq<char>>, floor: Option<(i64, u32)>) -> bool {
    match (timestamp, floor) {
        (Some(t), Some(f)) => match instant_of(t) {
            Ok(time) => time.0 < f.0 || (time.0 == f.0 && time.1 < f.1),
            Err(_) => false,
        },
        _ => false,
    }
}

/// Whether a record's timestamp falls before the retention floor.
pub fn retired(timestamp: Option<&str>, floor: Option<(i64, u32)>) -> (result: bool)
    ensures
        result == retired_of(
            match timestamp { Some(t) => Some(t@), None => None },
            floor,
        ),
{
    match (timestamp, floor) {
        (Some(t), Some(f)) => match observation_time(t) {
            Ok(time) => time.0 < f.0 || (time.0 == f.0 && time.1 < f.1),
            Err(_) => false,
        },
        _ => false,
    }
}

/// The validation of a usage record: a halted source or a conflicting thread
/// identity refuses it; otherwise its timestamp must parse and its delta reconcile
/// with its endpoint.
pub open spec fn usage_validation_of(
    halted: bool,
    thread: Option<Seq<char>>,
    usage: Usage,
    timestamp: Seq<char>,
) -> Result<bool, &'static str> {
    if halted {
        Err("Source accounting stopped after an unsupported record")
    } else if thread matches Some(t) && t != usage.thread_id@ {
        Err("Metadata and direct thread identity conflict")
    } else {
        match instant_of(timestamp) {
            Err(e) => Err(e),
            Ok(_) => reconciliation(&usage.usage, &usage.thread_token_usage, None),
        }
    }
}

/// Validates a usage record against its source's state.
pub fn usage_validation(halted: bool, thread: Option<&str>, usage: &Usage, timestamp: &str) -> (result:
    Result<bool, &'static str>)
    ensures
        result == usage_validation_of(
            halted,
            match thread { Some(t) => Some(t@), None => None },
            *usage,
            timestamp@,
        ),
{
    if halted {
        return Err("Source accounting stopped after an unsupported record");
    }
    if let Some(t) = thread {
        if !str_eq(t, usage.thread_id.as_str()) {
            return Err("Metadata and direct thread identity conflict");
        }
    }
    match observation_time(timestamp) {
        Err(e) => Err(e),
        Ok(_) => reconcile(&usage.usage, &usage.thread_token_usage, None),
    }
}

/// What a replayed usage record does to the observation already stored for its
/// endpoint or response.
#[derive(Clone, Copy, Debug, PartialEq, Eq)]
pub enum Duplicate {
    /// The records differ: the source halts and pending usage is rejected.
    Conflict,
    /// The replay is invalid: the source halts with this message.
    Halt(&'static str),
    /// The stored observation is still pending: reconsider it.
    Reconcile,
    /// A rejected observation of this thread may be recovered.
    Recover,
    /// Nothing changes.
    Keep,
}

/// The decision for a replayed record.
pub open spec fn duplicate_of(
    prior_encoded: Seq<char>,
    prior_timestamp: Seq<char>,
    prior_state: Seq<char>,
    encoded: Seq<char>,
    timestamp: Seq<char>,
    validation: Result<bool, &'static str>,
    thread: Option<Seq<char>>,
    usage_thread: Seq<char>,
) -> Duplicate {
    if prior_encoded != encoded || instant_of(prior_timestamp) != instant_of(timestamp) {
        Duplicate::Conflict
    } else if validation is Err {
        Duplicate::Halt(validation->Err_0)
    } else if prior_state == "pending"@ {
        Duplicate::Reconcile
    } else if prior_state == "rejected"@ && thread == Some(usage_thread) {
        Duplicate::Recover
    } else {
        Duplicate::Keep
    }
}

/// Decides what a replayed usage record does: identical records are replays,
/// anything else is a conflicting identity.
pub fn duplicate_action(
    prior_encoded: &str,
    prior_timestamp: &str,
    prior_state: &str,
    encoded: &str,
    timestamp: &str,
    validation: Result<bool, &'static str>,
    thread: Option<&str>,
    usage_thread: &str,
) -> (result: Duplicate)
    ensures
        result == duplicate_of(
            prior_encoded@,
            prior_timestamp@,
            prior_state@,
            encoded@,
            timestamp@,
            validation,
            match thread { Some(t) => Some(t@), None => None },
            usage_thread@,
        ),
{
    if !str_eq(prior_encoded, encoded) {
        return Duplicate::Conflict;
    }
    let before = observation_time(prior_timestamp);
    let now = observation_time(timestamp);
    let same_time = match (before, now) {
        (Ok(a), Ok(b)) => a.0 == b.0 && a.1 == b.1,
        (Err(a), Err(b)) => str_eq(a, b),
        _ => false,
    };
    if !same_time {
        return Duplicate::Conflict;
    }
    if let Err(m) = validation {
        return Duplicate::Halt(m);
    }
    proof {
        reveal_strlit("pending");
        reveal_strlit("rejected");
    }
    if str_eq(prior_state, "pending") {
        return Duplicate::Reconcile;
    }
    if str_eq(prior_state, "rejected") {
        if let Some(t) = thread {
            if str_eq(t, usage_thread) {
                return Duplicate::Recover;
            }
        }
    }
    Duplicate::Keep
}

/// A stored observation as reconciliation reads it.
#[derive(Debug)]
pub struct Observation {
    pub id: i64,
    pub usage: Usage,
    pub time: (i64, u32),
    pub path: String,
    pub generation: i64,
    pub offset: i64,
}

impl Observation {
    /// The facts the accounting rules decide from.
    pub fn facts(&self) -> (result: ObservationFacts<'_>)
        ensures
            *result.usage == self.usage.usage,
            *result.endpoint == self.usage.thread_token_usage,
            result.time == self.time,
            result.source@ == self.path@,
            result.generation == self.generation,
            result.offset == self.offset,
    {
        ObservationFacts {
            usage: &self.usage.usage,
            endpoint: &self.usage.thread_token_usage,
            time: self.time,
            source: self.path.as_str(),
            generation: self.generation,
            offset: self.offset,
        }
    }
}


/// The view of an optional text.
pub open spec fn text_view(value: Option<String>) -> Option<Seq<char>> {
    match value {
        Some(t) => Some(t@),
        None => None,
    }
}

/// What the store holds that applying one record reads: the source's thread, the
/// model already recorded for a context's turn (`None` when the turn is new), the
/// retention floor, and whether the source's accounting has stopped.
#[derive(Debug)]
pub struct StoredFacts {
    pub thread: Option<String>,
    pub turn_model: Option<Option<String>>,
    pub floor: Option<(i64, u32)>,
    pub halted: bool,
}

/// What applying one decoded record does.
#[derive(Debug)]
pub enum RecordPlan {
    /// The source takes this thread; the session gets these evidence rows.
    Metadata { thread: String, evidence: Vec<Evidence> },
    /// The context's model is detected; when the source has a thread, its location
    /// evidence is recorded and its turn model either kept or, on a conflict, cleared
    /// with a notice.
    Context { thread: Option<String>, evidence: Vec<Evidence>, conflict: bool },
    /// Usage is ingested as validated (the parsed timestamp and reconciliation with
    /// its endpoint), or refused with the message.
    Usage { validation: Result<bool, &'static str> },
    /// The source is marked legacy; its limit samples are written unless retired.
    Legacy { retired: bool },
    /// A diagnostic for the source; `halts` stops its accounting.
    Diagnostic { message: &'static str, halts: bool },
    /// Nothing is stored.
    Nothing,
}

/// A plan as plain values.
pub enum PlanView {
    Metadata { thread: Seq<char>, evidence: Seq<(Seq<char>, Seq<char>, Seq<char>)> },
    Context { thread: Option<Seq<char>>, evidence: Seq<(Seq<char>, Seq<char>, Seq<char>)>, conflict: bool },
    Usage { validation: Result<bool, &'static str> },
    Legacy { retired: bool },
    Diagnostic { message: &'static str, halts: bool },
    Nothing,
}

impl RecordPlan {
    pub open spec fn view(&self) -> PlanView {
        match self {
            RecordPlan::Metadata { thread, evidence } => PlanView::Metadata {
                thread: thread@,
                evidence: evidence_views(evidence@),
            },
            RecordPlan::Context { thread, evidence, conflict } => PlanView::Context {
                thread: text_view(*thread),
                evidence: evidence_views(evidence@),
                conflict: *conflict,
            },
            RecordPlan::Usage { validation } => PlanView::Usage { validation: *validation },
            RecordPlan::Legacy { retired } => PlanView::Legacy { retired: *retired },
            RecordPlan::Diagnostic { message, halts } => PlanView::Diagnostic { message: *message, halts: *halts },
            RecordPlan::Nothing => PlanView::Nothing,
        }
    }
}

/// What applying a decoded record (or the decoder's refusal) does:
/// - metadata naming another thread than the source's gives the halting diagnostic
///   "Conflicting direct session identity"; otherwise the source takes its thread and
///   the session its evidence;
/// - a context records its location evidence under the source's thread, if any, and
///   conflicts when its turn was already seen with another model;
/// - usage is validated: stopped sources and conflicting threads refuse it, otherwise
///   its timestamp must parse and its delta reconcile with its endpoint;
/// - legacy windows are written unless their timestamp predates the retention floor;
/// - an unsupported envelope gives a notice, and a decoding error stops the source.
pub open spec fn record_plan(stored: StoredFacts, record: Result<Record, &'static str>) -> PlanView {
    match record {
        Ok(Record::Metadata(meta)) => if stored.thread matches Some(t) && t@ != meta.id@ {
            PlanView::Diagnostic { message: "Conflicting direct session identity", halts: true }
        } else {
            PlanView::Metadata { thread: meta.id@, evidence: metadata_rows(meta) }
        },
        Ok(Record::Context(context)) => match stored.thread {
            Some(t) => PlanView::Context {
                thread: Some(t@),
                evidence: location_rows(context.cwd, context.workspace_roots, "turn_context"@),
                conflict: match stored.turn_model {
                    Some(old) => text_view(old) != text_view(context.model),
                    None => false,
                },
            },
            None => PlanView::Context { thread: None, evidence: Seq::empty(), conflict: false },
        },
        Ok(Record::Usage { timestamp, usage }) => PlanView::Usage {
            validation: usage_validation_of(stored.halted, text_view(stored.thread), usage, timestamp@),
        },
        Ok(Record::Legacy { timestamp, windows }) => PlanView::Legacy {
            retired: retired_of(text_view(timestamp), stored.floor),
        },
        Ok(Record::Ignore) => PlanView::Nothing,
        Ok(Record::UnsupportedEnvelope) => PlanView::Diagnostic {
            message: "Unrecognized envelope skipped; only supported modern usage is shown",
            halts: false,
        },
        Err(message) => PlanView::Diagnostic { message, halts: true },
    }
}

fn copy_text(value: &Option<String>) -> (result: Option<String>)
    ensures
        result == *value,
{
    match value {
        Some(t) => Some(t.clone()),
        None => None,
    }
}

/// Decides what applying one decoded record does, from what the store holds.
pub fn record_step(stored: &StoredFacts, record: &Result<Record, &'static str>) -> (result: RecordPlan)
    ensures
        result@ == record_plan(*stored, *record),
{
    match record {
        Ok(Record::Metadata(meta)) => {
            let conflicting = match &stored.thread {
                Some(t) => !str_eq(t.as_str(), meta.id.as_str()),
                None => false,
            };
            if conflicting {
                RecordPlan::Diagnostic { message: "Conflicting direct session identity", halts: true }
            } else {
                RecordPlan::Metadata { thread: meta.id.clone(), evidence: metadata_evidence(meta) }
            }
        },
        Ok(Record::Context(context)) => match &stored.thread {
            Some(t) => {
                let conflict = model_conflict(&stored.turn_model, &context.model);
                proof {
                    assert(conflict == match stored.turn_model {
                        Some(old) => text_view(old) != text_view(context.model),
                        None => false,
                    });
                }
                RecordPlan::Context { thread: Some(t.clone()), evidence: context_evidence(context), conflict }
            },
            None => {
                let evidence: Vec<Evidence> = Vec::new();
                assert(evidence_views(evidence@) =~= Seq::empty());
                RecordPlan::Context { thread: None, evidence, conflict: false }
            },
        },
        Ok(Record::Usage { timestamp, usage }) => {
            let thread = match &stored.thread {
                Some(t) => Some(t.as_str()),
                None => None,
            };
            RecordPlan::Usage { validation: usage_validation(stored.halted, thread, usage, timestamp.as_str()) }
        },
        Ok(Record::Legacy { timestamp, windows }) => {
            let at = match timestamp {
                Some(t) => Some(t.as_str()),
                None => None,
            };
            RecordPlan::Legacy { retired: retired(at, stored.floor) }
        },
        Ok(Record::Ignore) => RecordPlan::Nothing,
        Ok(Record::UnsupportedEnvelope) => RecordPlan::Diagnostic {
            message: "Unrecognized envelope skipped; only supported modern usage is shown",
            halts: false,
        },
        Err(message) => RecordPlan::Diagnostic { message: *message, halts: true },
    }
}

} // verus!
