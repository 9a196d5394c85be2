//! Pure classification of a durable forward path. Only a cycle's suffix loses edges.
use crate::text::{owned, str_eq};
use vstd::prelude::*;

verus! {

/// Why a hierarchy read was refused.
#[derive(Clone, Copy, Debug, PartialEq, Eq, Structural)]
pub enum ReadError {
    HierarchyPending,
    Storage,
}

/// The state of an edge on a forward path: edges at or after the start of a cycle
/// become `self` (the edge that closes on itself) or `cycle`; earlier edges keep
/// their candidate state.
pub open spec fn effective_state_of(
    candidate_state: Seq<char>,
    ordinal: i64,
    cycle_start: Option<i64>,
    is_self: bool,
) -> Seq<char> {
    match cycle_start {
        Some(start) => if ordinal >= start {
            if is_self {
                "self"@
            } else {
                "cycle"@
            }
        } else {
            candidate_state
        },
        None => candidate_state,
    }
}

/// The effective state of the edge at `ordinal` on a forward path.
pub fn effective_state<'a>(
    candidate_state: &'a str,
    ordinal: i64,
    cycle_start: Option<i64>,
    is_self: bool,
) -> (result: &'a str)
    ensures
        result@ == effective_state_of(candidate_state@, ordinal, cycle_start, is_self),
{
    let in_cycle = match cycle_start {
        Some(start) => ordinal >= start,
        None => false,
    };
    if in_cycle {
        if is_self {
            "self"
        } else {
            "cycle"
        }
    } else {
        candidate_state
    }
}

/// What the hierarchy job does next.
#[derive(Clone, Copy, Debug, PartialEq, Eq, Structural)]
pub enum Step {
    /// The hierarchy changed under a running job: cancel it and clean up.
    Cancel,
    /// Follow the candidate parent chain from the cursor.
    Walk,
    /// Classify the visited sessions in visiting order.
    Result,
    /// Forget one visit, or finish the job when none remain.
    Cleanup,
}

/// The next step of a job in a phase: a job started at another revision is
/// cancelled once; an unknown phase is stored metadata that cannot be recovered.
pub open spec fn job_step_of(revision: i64, job_revision: i64, cancelled: bool, phase: Seq<char>) -> Option<
    Step,
> {
    if revision != job_revision && !cancelled {
        Some(Step::Cancel)
    } else if phase == "walk"@ {
        Some(Step::Walk)
    } else if phase == "result"@ {
        Some(Step::Result)
    } else if phase == "cleanup"@ {
        Some(Step::Cleanup)
    } else {
        None
    }
}

/// The next step of the running hierarchy job.
pub fn job_step(revision: i64, job_revision: i64, cancelled: bool, phase: &str) -> (result: Option<Step>)
    ensures
        result == job_step_of(revision, job_revision, cancelled, phase@),
{
    if revision != job_revision && !cancelled {
        Some(Step::Cancel)
    } else if str_eq(phase, "walk") {
        Some(Step::Walk)
    } else if str_eq(phase, "result") {
        Some(Step::Result)
    } else if str_eq(phase, "cleanup") {
        Some(Step::Cleanup)
    } else {
        None
    }
}

/// One step of the walk along candidate parents.
#[derive(Clone, Copy, Debug, PartialEq, Eq, Structural)]
pub enum Walk {
    /// The chain ended or reached a session classified at this revision.
    Finish,
    /// The chain returned to a visited session: a cycle starts at that ordinal.
    Cycle(i64),
    /// Record the visit and move to the candidate parent.
    Visit,
}

/// The walk's decision at the cursor.
pub open spec fn walk_step_of(cursor: bool, seen: Option<i64>, classified: Option<i64>, revision: i64) -> Walk {
    if !cursor {
        Walk::Finish
    } else if seen is Some {
        Walk::Cycle(seen->0)
    } else if classified == Some(revision) {
        Walk::Finish
    } else {
        Walk::Visit
    }
}

/// Decides one walk step from whether a cursor remains, the ordinal at which the
/// cursor was already visited, and the revision at which it was classified.
pub fn walk_step(cursor: bool, seen: Option<i64>, classified: Option<i64>, revision: i64) -> (result: Walk)
    ensures
        result == walk_step_of(cursor, seen, classified, revision),
{
    if !cursor {
        return Walk::Finish;
    }
    if let Some(start) = seen {
        return Walk::Cycle(start);
    }
    match classified {
        Some(c) => if c == revision {
            Walk::Finish
        } else {
            Walk::Visit
        },
        None => Walk::Visit,
    }
}

/// The parent and state a visited session receives: its effective state, and its
/// candidate parent only when that state is `available`.
pub open spec fn classified_of(
    thread: Seq<char>,
    ordinal: i64,
    cycle_start: Option<i64>,
    parent: Option<Seq<char>>,
    candidate_state: Seq<char>,
) -> (Option<Seq<char>>, Seq<char>) {
    let state = effective_state_of(candidate_state, ordinal, cycle_start, parent == Some(thread));
    (if state == "available"@ { parent } else { None }, state)
}

/// Classifies a visited session.
pub fn classify(
    thread: &str,
    ordinal: i64,
    cycle_start: Option<i64>,
    parent: Option<String>,
    candidate_state: &str,
) -> (result: (Option<String>, String))
    ensures
        (match result.0 { Some(p) => Some(p@), None => None }, result.1@) == classified_of(
            thread@,
            ordinal,
            cycle_start,
            match parent { Some(p) => Some(p@), None => None },
            candidate_state@,
        ),
{
    let is_self = match &parent {
        Some(p) => str_eq(p.as_str(), thread),
        None => false,
    };
    let state = effective_state(candidate_state, ordinal, cycle_start, is_self);
    let effective = if str_eq(state, "available") {
        parent
    } else {
        None
    };
    (effective, owned(state))
}

/// Only a cycle's suffix loses edges: a session before the cycle keeps its
/// candidate state (and its parent when that state is available), while every
/// session from the cycle's start on is classified without a parent.
pub proof fn law_only_cycle_suffix_loses_edges(
    thread: Seq<char>,
    ordinal: i64,
    cycle_start: Option<i64>,
    parent: Option<Seq<char>>,
    candidate_state: Seq<char>,
)
    ensures
        (cycle_start matches Some(start) && ordinal >= start) ==> classified_of(
            thread,
            ordinal,
            cycle_start,
            parent,
            candidate_state,
        ).0 is None,
        !(cycle_start matches Some(start) && ordinal >= start) ==> classified_of(
            thread,
            ordinal,
            cycle_start,
            parent,
            candidate_state,
        ).1 == candidate_state,
        (!(cycle_start matches Some(start) && ordinal >= start) && candidate_state == "available"@)
            ==> classified_of(thread, ordinal, cycle_start, parent, candidate_state).0 == parent,
{
    reveal_strlit("available");
    reveal_strlit("self");
    reveal_strlit("cycle");
    assert("available"@.len() != "self"@.len());
    assert("available"@.len() != "cycle"@.len());
}

} // verus!
