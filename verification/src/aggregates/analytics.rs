//! Prepared project comparisons and model history; all usage is direct.
use super::session_detail::ShareUnavailable;
use super::{Attribution, EstimatedCost, ReadError, Summary, Tokens};
use crate::text::{decimal, i128_text, parse_i128, parsed_i128};
use crate::weekly::{Time, Unavailable};
use vstd::prelude::*;

verus! {

/// Integer trillionths of USD per observed session, rounded half-up.
#[derive(Clone, Debug)]
pub struct AverageCost {
    pub amount: Option<String>,
    pub unavailable_reason: Option<&'static str>,
}

/// Why an average session cost is unavailable.
pub open spec fn average_reason(summary: &Summary) -> Option<&'static str> {
    if summary.observed_sessions == 0 {
        Some("noObservedSessions")
    } else if summary.coverage.unavailable_sessions > 0 {
        Some("sessionsWithoutAcceptedUsage")
    } else if !summary.estimated_cost.complete {
        Some("incompleteCost")
    } else {
        None
    }
}

/// Rust's integer division (truncating toward zero) and remainder.
pub open spec fn trunc_div(a: int, b: int) -> int {
    if a >= 0 { a / b } else { -((-a) / b) }
}

pub open spec fn trunc_rem(a: int, b: int) -> int {
    a - b * trunc_div(a, b)
}

/// Amount per session: the truncated quotient, plus one when the truncated remainder
/// reaches half of the count (rounded up).
pub open spec fn average_amount(amount: int, count: int) -> int {
    trunc_div(amount, count) + (if trunc_rem(amount, count) >= (count + 1) / 2 { 1int } else { 0 })
}

proof fn lemma_trunc_div_bounds(a: int, c: int)
    requires
        c >= 1,
    ensures
        a >= 0 ==> 0 <= trunc_div(a, c) * c <= a,
        a < 0 ==> a <= trunc_div(a, c) * c <= 0,
        0 <= trunc_rem(a, c) < c || (a < 0 && -c < trunc_rem(a, c) <= 0),
        c >= 2 && a >= 0 ==> trunc_div(a, c) * 2 <= a,
        c >= 2 && a < 0 ==> trunc_div(a, c) * 2 >= a,
        trunc_div(a, c) * c == c * trunc_div(a, c),
{
    if a >= 0 {
        vstd::arithmetic::div_mod::lemma_fundamental_div_mod(a, c);
        vstd::arithmetic::div_mod::lemma_mod_bound(a, c);
        assert(0 <= (a / c) * c) by (nonlinear_arith) requires a >= 0, c >= 1, a / c >= 0;
        vstd::arithmetic::div_mod::lemma_div_pos_is_pos(a, c);
        assert((a / c) * c <= a) by (nonlinear_arith) requires a == c * (a / c) + a % c, a % c >= 0;
        assert(trunc_rem(a, c) == a % c) by (nonlinear_arith)
            requires trunc_rem(a, c) == a - c * trunc_div(a, c), trunc_div(a, c) == a / c, a == c * (a / c) + a % c;
        if c >= 2 {
            assert((a / c) * 2 <= (a / c) * c) by (nonlinear_arith) requires c >= 2, a / c >= 0;
        }
    } else {
        vstd::arithmetic::div_mod::lemma_fundamental_div_mod(-a, c);
        vstd::arithmetic::div_mod::lemma_mod_bound(-a, c);
        vstd::arithmetic::div_mod::lemma_div_pos_is_pos(-a, c);
        assert(0 <= ((-a) / c) * c) by (nonlinear_arith) requires -a >= 0, c >= 1, (-a) / c >= 0;
        assert(((-a) / c) * c <= -a) by (nonlinear_arith)
            requires -a == c * ((-a) / c) + (-a) % c, (-a) % c >= 0;
        assert(trunc_div(a, c) * c == -(((-a) / c) * c)) by (nonlinear_arith)
            requires trunc_div(a, c) == -((-a) / c);
        assert(trunc_rem(a, c) == -((-a) % c)) by (nonlinear_arith)
            requires trunc_rem(a, c) == a - c * trunc_div(a, c), trunc_div(a, c) == -((-a) / c),
                -a == c * ((-a) / c) + (-a) % c;
        if c >= 2 {
            assert(((-a) / c) * 2 <= ((-a) / c) * c) by (nonlinear_arith) requires c >= 2, (-a) / c >= 0;
        }
    }
    vstd::arithmetic::mul::lemma_mul_is_commutative(trunc_div(a, c), c);
}

/// The average cost of a project's observed sessions.
pub fn average(summary: &Summary) -> (result: Result<AverageCost, ReadError>)
    ensures
        match result {
            Ok(average) => {
                &&& average.unavailable_reason == average_reason(summary)
                &&& average_reason(summary) is Some ==> average.amount is None
                &&& average_reason(summary) is None ==> {
                    &&& summary.estimated_cost.known_subtotal matches Some(text)
                    &&& parsed_i128(text@) matches Some(total)
                    &&& average.amount matches Some(a)
                    &&& a@ == decimal(average_amount(total as int, summary.observed_sessions as int))
                }
            },
            Err(e) => e == ReadError::Storage && average_reason(summary) is None && {
                ||| summary.estimated_cost.known_subtotal is None
                ||| parsed_i128(summary.estimated_cost.known_subtotal.unwrap()@) is None
            },
        },
{
    let reason = if summary.observed_sessions == 0 {
        Some("noObservedSessions")
    } else if summary.coverage.unavailable_sessions > 0 {
        Some("sessionsWithoutAcceptedUsage")
    } else if !summary.estimated_cost.complete {
        Some("incompleteCost")
    } else {
        None
    };
    let amount = if reason.is_none() {
        let text = match &summary.estimated_cost.known_subtotal {
            Some(t) => t,
            None => return Err(ReadError::Storage),
        };
        let amount: i128 = match parse_i128(text.as_str()) {
            Some(v) => v,
            None => return Err(ReadError::Storage),
        };
        let count = summary.observed_sessions as i128;
        let quotient = amount / count;
        proof {
            assert(quotient == trunc_div(amount as int, count as int));
            lemma_trunc_div_bounds(amount as int, count as int);
        }
        let remainder = amount - quotient * count;
        let up: i128 = if remainder >= (count + 1) / 2 { 1 } else { 0 };
        proof {
            if up == 1 {
                assert(count >= 2);
            }
        }
        Some(i128_text(quotient + up))
    } else {
        None
    };
    Ok(AverageCost { amount, unavailable_reason: reason })
}

/// Observed usage of the subagent hierarchy classes of a project.
#[derive(Clone, Debug)]
pub struct Classification {
    pub proven_subagent: Summary,
    pub parent_classification_unavailable: Summary,
}

/// Current-cycle usage of a project.
#[derive(Clone, Debug)]
pub struct CycleUsage {
    pub label: &'static str,
    pub cycle_key: Option<String>,
    pub start: Option<Time>,
    pub end: Option<Time>,
    pub observation_age_seconds: Option<u64>,
    pub partial: bool,
    pub has_ambiguous_observations: bool,
    pub unavailable_reason: Option<Unavailable>,
    pub direct: Option<Summary>,
}

/// The first models used in a project.
#[derive(Clone, Debug)]
pub struct ProjectModels {
    pub items: Vec<Attribution>,
    pub total_items: u64,
    pub next_cursor: Option<String>,
}

/// One project comparison row.
#[derive(Clone, Debug)]
pub struct Project {
    pub attribution: Attribution,
    pub direct: Summary,
    pub average_session_cost: AverageCost,
    pub models: ProjectModels,
    pub classification: Option<Classification>,
    pub current_cycle: CycleUsage,
}

/// A page of project comparisons.
#[derive(Clone, Debug)]
pub struct Projects {
    pub evaluated_at: Time,
    pub items: Vec<Project>,
    pub total_items: u64,
    pub next_cursor: Option<String>,
    pub direct: Summary,
}

/// The price version active for a model.
#[derive(Clone, Debug)]
pub struct ActivePrice {
    pub version_id: i64,
    pub effective_at: Time,
}

/// One model comparison row.
#[derive(Clone, Debug)]
pub struct Model {
    pub attribution: Attribution,
    pub direct: Summary,
    pub accepted_usage_events: u64,
    pub sessions_used: u64,
    pub cost_share: Option<String>,
    pub cost_share_unavailable_reason: Option<ShareUnavailable>,
    pub active_pricing_version: Option<ActivePrice>,
}

/// A page of model comparisons.
#[derive(Clone, Debug)]
pub struct Models {
    pub evaluated_at: Time,
    pub items: Vec<Model>,
    pub total_items: u64,
    pub next_cursor: Option<String>,
    pub direct: Summary,
}

/// One bin of a model's history.
#[derive(Clone, Debug)]
pub struct HistoryBin {
    pub index: u32,
    pub start: Time,
    pub end: Time,
    pub accepted_usage_events: u64,
    pub tokens: Tokens,
    pub estimated_cost: EstimatedCost,
}

/// A model's bounded usage history.
#[derive(Clone, Debug)]
pub struct History {
    pub attribution: Attribution,
    pub start: Time,
    pub end: Time,
    pub point_budget: u32,
    pub bins: Vec<HistoryBin>,
    pub untimed_accepted_usage_events: u64,
    pub coverage_note: &'static str,
}


/// An average session cost is the project's cost divided by its sessions: the average
/// times the session count misses the total by less than one session count; a
/// non-negative total is rounded to the nearest whole amount, halves up, and a negative
/// one is truncated toward zero.
pub proof fn law_average_divides_total_by_sessions(amount: int, sessions: int)
    requires
        sessions >= 1,
    ensures
        -sessions < amount - average_amount(amount, sessions) * sessions < sessions,
        amount >= 0 ==> -sessions <= 2 * (amount - average_amount(amount, sessions) * sessions) < sessions,
        amount < 0 ==> -sessions < amount - average_amount(amount, sessions) * sessions <= 0,
        amount >= 0 ==> average_amount(amount, sessions) >= 0,
{
    lemma_trunc_div_bounds(amount, sessions);
    let q = trunc_div(amount, sessions);
    let r = trunc_rem(amount, sessions);
    let half = (sessions + 1) / 2;
    assert(1 <= half && half <= sessions && 2 * half >= sessions && 2 * half <= sessions + 1);
    assert(r == amount - q * sessions);
    let up: int = if r >= half { 1 } else { 0 };
    assert(average_amount(amount, sessions) == q + up);
    assert((q + up) * sessions == q * sessions + up * sessions) by (nonlinear_arith);
    assert(amount - average_amount(amount, sessions) * sessions == r - up * sessions);
    if amount >= 0 {
        assert(q >= 0) by (nonlinear_arith)
            requires
                0 <= q * sessions,
                sessions >= 1,
        ;
    }
}

} // verus!
