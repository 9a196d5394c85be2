//! Acceptance rules for the evidence-supported non-resetting modern token stream.
//!
//! A usage record carries its explicit delta (`usage`) and the thread's cumulative
//! endpoint after it. A delta is accepted only when it is internally consistent and
//! exactly bridges the confirmed endpoints on both sides of it.
use crate::adapter::Tokens;
use crate::text::{char_of_hex, hex_digits, lemma_hex_order, lemma_text_lt_concat, pow16, push_char, str_eq, text_lt};
use std::cmp::Ordering;
use vstd::prelude::*;

verus! {

/// Only the facts needed to compare an observation with confirmed anchors.
#[derive(Clone, Copy)]
pub struct ObservationFacts<'a> {
    pub usage: &'a Tokens,
    pub endpoint: &'a Tokens,
    pub time: (i64, u32),
    pub source: &'a str,
    pub generation: i64,
    pub offset: i64,
}

/// The decision for one pending candidate.
pub enum Acceptance {
    Accept { incomplete_opening: bool },
    Pending,
}

// ---------------------------------------------------------------- reconciliation

/// The first internal inconsistency of six category values (input, cached input,
/// cache writes, output, reasoning, total), if any.
pub open spec fn shape_error(v: Seq<i64>) -> Option<&'static str> {
    if exists|i: int| 0 <= i < 6 && v[i] < 0 {
        Some("Negative token counter; unsupported stream")
    } else if v[0] + v[3] != v[5] || v[1] > v[0] || v[4] > v[3] {
        Some("Unsupported token category relationship")
    } else {
        None
    }
}

/// The first category, from `i` on, where `end` is not `start` advanced by exactly `delta`.
pub open spec fn bridge_error(delta: Seq<i64>, end: Seq<i64>, start: Seq<i64>, i: int) -> Option<&'static str>
    decreases 6 - i,
{
    if i < 0 || i >= 6 {
        None
    } else if end[i] < start[i] {
        Some("Decreasing thread endpoint; unsupported stream")
    } else if end[i] - start[i] != delta[i] {
        Some("Unexplained thread gap; remaining source usage unavailable")
    } else {
        bridge_error(delta, end, start, i + 1)
    }
}

/// The reconciliation of an explicit delta with its thread endpoint and, where
/// known, the previous confirmed endpoint. `Ok(true)` means an opening record whose
/// endpoint includes usage that was never observed.
pub open spec fn reconciliation(usage: &Tokens, endpoint: &Tokens, previous: Option<&Tokens>) -> Result<bool, &'static str> {
    match usage.spec_values() {
        None => Err("Missing reconciliation category; usage unavailable"),
        Some(d) => match endpoint.spec_values() {
            None => Err("Missing endpoint category; usage unavailable"),
            Some(e) => match shape_error(d) {
                Some(m) => Err(m),
                None => match shape_error(e) {
                    Some(m) => Err(m),
                    None => match previous {
                        Some(p) => match p.spec_values() {
                            None => Err("Previous endpoint unavailable"),
                            Some(s) => match bridge_error(d, e, s, 0) {
                                Some(m) => Err(m),
                                None => Ok(false),
                            },
                        },
                        None => if exists|i: int| 0 <= i < 6 && e[i] < d[i] {
                            Err("Usage exceeds opening endpoint")
                        } else {
                            Ok(e != d)
                        },
                    },
                },
            },
        },
    }
}

fn shape_check(values: &[i64; 6]) -> (result: Option<&'static str>)
    ensures
        result == shape_error(values@),
{
    let mut i: usize = 0;
    while i < 6
        invariant
            0 <= i <= 6,
            forall|j: int| 0 <= j < i ==> values@[j] >= 0,
        decreases 6 - i,
    {
        if values[i] < 0 {
            return Some("Negative token counter; unsupported stream");
        }
        i = i + 1;
    }
    if values[0].checked_add(values[3]) != Some(values[5]) || values[1] > values[0] || values[4] > values[3] {
        return Some("Unsupported token category relationship");
    }
    None
}

fn bridge_check(delta: &[i64; 6], end: &[i64; 6], start: &[i64; 6]) -> (result: Option<&'static str>)
    ensures
        result == bridge_error(delta@, end@, start@, 0),
{
    let mut i: usize = 0;
    while i < 6
        invariant
            0 <= i <= 6,
            bridge_error(delta@, end@, start@, 0) == bridge_error(delta@, end@, start@, i as int),
        decreases 6 - i,
    {
        if end[i] < start[i] {
            return Some("Decreasing thread endpoint; unsupported stream");
        }
        let difference = end[i] as i128 - start[i] as i128;
        if difference != delta[i] as i128 {
            return Some("Unexplained thread gap; remaining source usage unavailable");
        }
        i = i + 1;
    }
    None
}

/// Validates an explicit delta against its endpoint and the previous confirmed endpoint.
pub fn reconcile(usage: &Tokens, endpoint: &Tokens, previous: Option<&Tokens>) -> (result: Result<bool, &'static str>)
    ensures
        result == reconciliation(usage, endpoint, previous),
{
    let delta = match usage.values() {
        Some(values) => values,
        None => return Err("Missing reconciliation category; usage unavailable"),
    };
    let end = match endpoint.values() {
        Some(values) => values,
        None => return Err("Missing endpoint category; usage unavailable"),
    };
    if let Some(message) = shape_check(&delta) {
        return Err(message);
    }
    if let Some(message) = shape_check(&end) {
        return Err(message);
    }
    match previous {
        Some(previous) => {
            let start = match previous.values() {
                Some(values) => values,
                None => return Err("Previous endpoint unavailable"),
            };
            match bridge_check(&delta, &end, &start) {
                Some(message) => Err(message),
                None => Ok(false),
            }
        }
        None => {
            let mut i: usize = 0;
            let mut equal = true;
            while i < 6
                invariant
                    0 <= i <= 6,
                    usage.spec_values() == Some(delta@),
                    endpoint.spec_values() == Some(end@),
                    shape_error(delta@) is None,
                    shape_error(end@) is None,
                    previous is None,
                    forall|j: int| 0 <= j < i ==> end@[j] >= delta@[j],
                    equal == (forall|j: int| 0 <= j < i ==> end@[j] == delta@[j]),
                decreases 6 - i,
            {
                if end[i] < delta[i] {
                    assert(end@[i as int] < delta@[i as int]);
                    return Err("Usage exceeds opening endpoint");
                }
                if end[i] != delta[i] {
                    equal = false;
                }
                i = i + 1;
            }
            proof {
                if equal {
                    assert(end@ =~= delta@);
                }
            }
            Ok(!equal)
        }
    }
}

// ---------------------------------------------------------------- lookup keys

/// Indexed lookup text for six nonnegative counters: sixteen lowercase hexadecimal
/// digits each, total first, then input, cached input, cache writes, output, reasoning.
pub open spec fn counter_text(v: Seq<i64>) -> Option<Seq<char>> {
    if exists|i: int| 0 <= i < 6 && v[i] < 0 {
        None
    } else {
        Some(hex_digits(v[5] as nat, 16) + hex_digits(v[0] as nat, 16) + hex_digits(v[1] as nat, 16)
            + hex_digits(v[2] as nat, 16) + hex_digits(v[3] as nat, 16) + hex_digits(v[4] as nat, 16))
    }
}

/// The key of a thread endpoint; None when a category is missing or negative.
pub open spec fn endpoint_text(tokens: &Tokens) -> Option<Seq<char>> {
    match tokens.spec_values() {
        Some(v) => counter_text(v),
        None => None,
    }
}

/// The key of the endpoint that preceded a delta (`endpoint - usage`).
pub open spec fn start_text(usage: &Tokens, endpoint: &Tokens) -> Option<Seq<char>> {
    match (usage.spec_values(), endpoint.spec_values()) {
        (Some(d), Some(e)) => if exists|i: int| 0 <= i < 6 && !(i64::MIN <= #[trigger] e[i] - d[i] <= i64::MAX) {
            None
        } else {
            counter_text(Seq::new(6, |i: int| (e[i] - d[i]) as i64))
        },
        _ => None,
    }
}

fn push_hex(s: &mut String, n: u64, width: usize)
    ensures
        final(s)@ == old(s)@ + hex_digits(n as nat, width as nat),
    decreases width,
{
    if width > 0 {
        push_hex(s, n / 16, width - 1);
        let d = (n % 16) as u32;
        let c = char_of_hex(d);
        push_char(s, c);
        assert(s@ =~= old(s)@ + hex_digits(n as nat, width as nat));
    } else {
        assert(s@ =~= old(s)@ + hex_digits(n as nat, width as nat));
    }
}

fn counter_key(values: [i64; 6]) -> (result: Option<String>)
    ensures
        match result {
            Some(key) => counter_text(values@) == Some(key@),
            None => counter_text(values@) is None,
        },
{
    let mut i: usize = 0;
    while i < 6
        invariant
            0 <= i <= 6,
            forall|j: int| 0 <= j < i ==> values@[j] >= 0,
        decreases 6 - i,
    {
        if values[i] < 0 {
            return None;
        }
        i = i + 1;
    }
    let mut key = String::new();
    push_hex(&mut key, values[5] as u64, 16);
    push_hex(&mut key, values[0] as u64, 16);
    push_hex(&mut key, values[1] as u64, 16);
    push_hex(&mut key, values[2] as u64, 16);
    push_hex(&mut key, values[3] as u64, 16);
    push_hex(&mut key, values[4] as u64, 16);
    assert(key@ =~= counter_text(values@).unwrap());
    Some(key)
}

/// Indexed lookup key for neighbors, not acceptance evidence. Every selected
/// neighbor must still satisfy all six category relationships.
pub fn endpoint_key(tokens: &Tokens) -> (result: Option<String>)
    ensures
        match result {
            Some(key) => endpoint_text(tokens) == Some(key@),
            None => endpoint_text(tokens) is None,
        },
{
    match tokens.values() {
        Some(values) => counter_key(values),
        None => None,
    }
}

/// Lookup key of the endpoint this delta started from.
pub fn start_key(usage: &Tokens, endpoint: &Tokens) -> (result: Option<String>)
    ensures
        match result {
            Some(key) => start_text(usage, endpoint) == Some(key@),
            None => start_text(usage, endpoint) is None,
        },
{
    let delta = match usage.values() {
        Some(values) => values,
        None => return None,
    };
    let end = match endpoint.values() {
        Some(values) => values,
        None => return None,
    };
    let mut start: [i64; 6] = [0; 6];
    let mut i: usize = 0;
    while i < 6
        invariant
            0 <= i <= 6,
            start@.len() == 6,
            usage.spec_values() == Some(delta@),
            endpoint.spec_values() == Some(end@),
            forall|j: int| 0 <= j < i ==> i64::MIN <= #[trigger] end@[j] - delta@[j] <= i64::MAX && start@[j] == end@[j] - delta@[j],
        decreases 6 - i,
    {
        match end[i].checked_sub(delta[i]) {
            Some(value) => {
                start.set(i, value);
            }
            None => {
                assert(!(i64::MIN <= end@[i as int] - delta@[i as int] <= i64::MAX));
                return None;
            }
        }
        i = i + 1;
    }
    assert(start@ =~= Seq::new(6, |j: int| (end@[j] - delta@[j]) as i64));
    counter_key(start)
}

// ---------------------------------------------------------------- ordering

/// Strict chronological order of canonical observation times.
pub open spec fn time_before(a: (i64, u32), b: (i64, u32)) -> bool {
    a.0 < b.0 || (a.0 == b.0 && a.1 < b.1)
}

/// Counter order is evidence only for the supported non-resetting stream: one
/// endpoint precedes another when no category is larger.
pub open spec fn endpoint_relation(left: &Tokens, right: &Tokens) -> Option<Ordering> {
    match (left.spec_values(), right.spec_values()) {
        (Some(l), Some(r)) => if l == r {
            Some(Ordering::Equal)
        } else if forall|i: int| 0 <= i < 6 ==> l[i] <= r[i] {
            Some(Ordering::Less)
        } else if forall|i: int| 0 <= i < 6 ==> l[i] >= r[i] {
            Some(Ordering::Greater)
        } else {
            None
        },
        _ => None,
    }
}

/// The order of two observations: time first; at equal times, file position within
/// one source generation, otherwise strict endpoint order.
pub open spec fn observation_relation(left: ObservationFacts, right: ObservationFacts) -> Option<Ordering> {
    if time_before(left.time, right.time) {
        Some(Ordering::Less)
    } else if time_before(right.time, left.time) {
        Some(Ordering::Greater)
    } else if left.source@ == right.source@ && left.generation == right.generation {
        if left.offset < right.offset {
            Some(Ordering::Less)
        } else if left.offset == right.offset {
            Some(Ordering::Equal)
        } else {
            Some(Ordering::Greater)
        }
    } else {
        match endpoint_relation(left.endpoint, right.endpoint) {
            Some(Ordering::Equal) => None,
            other => other,
        }
    }
}

/// Counter order of two endpoints.
pub fn endpoint_order(left: &Tokens, right: &Tokens) -> (result: Option<Ordering>)
    ensures
        result == endpoint_relation(left, right),
{
    let l = match left.values() {
        Some(values) => values,
        None => return None,
    };
    let r = match right.values() {
        Some(values) => values,
        None => return None,
    };
    let mut i: usize = 0;
    let mut all_le = true;
    let mut all_ge = true;
    let mut all_eq = true;
    while i < 6
        invariant
            0 <= i <= 6,
            all_le == (forall|j: int| 0 <= j < i ==> l@[j] <= r@[j]),
            all_ge == (forall|j: int| 0 <= j < i ==> l@[j] >= r@[j]),
            all_eq == (forall|j: int| 0 <= j < i ==> l@[j] == r@[j]),
        decreases 6 - i,
    {
        if l[i] > r[i] {
            all_le = false;
        }
        if l[i] < r[i] {
            all_ge = false;
        }
        if l[i] != r[i] {
            all_eq = false;
        }
        i = i + 1;
    }
    proof {
        if all_eq {
            assert(l@ =~= r@);
        }
        if l@ == r@ {
            assert(forall|j: int| 0 <= j < 6 ==> l@[j] == r@[j]);
        }
    }
    if all_eq {
        Some(Ordering::Equal)
    } else if all_le {
        Some(Ordering::Less)
    } else if all_ge {
        Some(Ordering::Greater)
    } else {
        None
    }
}

fn relative_order(left: &ObservationFacts, right: &ObservationFacts) -> (result: Option<Ordering>)
    ensures
        result == observation_relation(*left, *right),
{
    if left.time.0 < right.time.0 || (left.time.0 == right.time.0 && left.time.1 < right.time.1) {
        Some(Ordering::Less)
    } else if right.time.0 < left.time.0 || (right.time.0 == left.time.0 && right.time.1 < left.time.1) {
        Some(Ordering::Greater)
    } else if str_eq(left.source, right.source) && left.generation == right.generation {
        if left.offset < right.offset {
            Some(Ordering::Less)
        } else if left.offset == right.offset {
            Some(Ordering::Equal)
        } else {
            Some(Ordering::Greater)
        }
    } else {
        match endpoint_order(left.endpoint, right.endpoint) {
            Some(Ordering::Equal) => None,
            other => other,
        }
    }
}

// ---------------------------------------------------------------- acceptance

/// The nearest confirmed predecessor and successor among the first `n` anchors, in
/// the order they are examined; None when some anchor is not strictly ordered with
/// the candidate or with the neighbor it would replace.
pub open spec fn neighbors(candidate: ObservationFacts, anchors: Seq<ObservationFacts>, n: int) -> Option<(Option<int>, Option<int>)>
    decreases n,
{
    if n <= 0 {
        Some((None, None))
    } else {
        match neighbors(candidate, anchors, n - 1) {
            None => None,
            Some((p, s)) => {
                let k = n - 1;
                let anchor = anchors[k];
                match observation_relation(anchor, candidate) {
                    Some(Ordering::Less) => match p {
                        Some(pi) => match observation_relation(anchors[pi], anchor) {
                            Some(Ordering::Less) => Some((Some(k), s)),
                            Some(Ordering::Greater) => Some((p, s)),
                            _ => None,
                        },
                        None => Some((Some(k), s)),
                    },
                    Some(Ordering::Greater) => match s {
                        Some(si) => match observation_relation(anchor, anchors[si]) {
                            Some(Ordering::Less) => Some((p, Some(k))),
                            Some(Ordering::Greater) => Some((p, s)),
                            _ => None,
                        },
                        None => Some((p, Some(k))),
                    },
                    _ => None,
                }
            },
        }
    }
}

/// The decision for a candidate given at most six confirmed neighbors.
pub open spec fn assessment(candidate: ObservationFacts, anchors: Seq<ObservationFacts>, unknown_anchor: bool) -> Acceptance {
    if unknown_anchor || anchors.len() > 6 {
        Acceptance::Pending
    } else {
        match neighbors(candidate, anchors, anchor_count(anchors)) {
            None => Acceptance::Pending,
            Some((p, s)) => {
                let standalone = reconciliation(candidate.usage, candidate.endpoint, None);
                let before = reconciliation(
                    candidate.usage,
                    candidate.endpoint,
                    match p {
                        Some(i) => Some(anchors[i].endpoint),
                        None => None,
                    },
                ) is Ok;
                let after = match s {
                    Some(j) => reconciliation(anchors[j].usage, anchors[j].endpoint, Some(candidate.endpoint)) is Ok,
                    None => true,
                };
                if standalone is Ok && before && after {
                    Acceptance::Accept { incomplete_opening: p is None && standalone == Ok::<bool, &'static str>(true) }
                } else {
                    Acceptance::Pending
                }
            },
        }
    }
}

pub open spec fn anchor_count(anchors: Seq<ObservationFacts>) -> int {
    anchors.len() as int
}

pub open spec fn position(i: usize) -> int {
    i as int
}

pub open spec fn index_of(position: Option<usize>) -> Option<int> {
    match position {
        Some(i) => Some(i as int),
        None => None,
    }
}

proof fn lemma_neighbors_stay_pending(candidate: ObservationFacts, anchors: Seq<ObservationFacts>, n: int, m: int)
    requires
        n <= m,
        neighbors(candidate, anchors, n) is None,
    ensures
        neighbors(candidate, anchors, m) is None,
    decreases m - n,
{
    if n < m {
        lemma_neighbors_stay_pending(candidate, anchors, n, m - 1);
    }
}

/// Select from at most six indexed neighbors. Confirmed observations stay
/// immutable: a candidate must independently validate and bridge both sides.
pub fn assess_candidate(candidate: ObservationFacts<'_>, anchors: &[ObservationFacts<'_>], unknown_anchor: bool) -> (result: Acceptance)
    ensures
        result == assessment(candidate, anchors@, unknown_anchor),
{
    if unknown_anchor || anchors.len() > 6 {
        return Acceptance::Pending;
    }
    let mut predecessor: Option<usize> = None;
    let mut successor: Option<usize> = None;
    let mut i: usize = 0;
    while i < anchors.len()
        invariant
            0 <= i <= anchors@.len(),
            neighbors(candidate, anchors@, position(i)) == Some((index_of(predecessor), index_of(successor))),
            !unknown_anchor,
            anchors@.len() <= 6,
            predecessor matches Some(p) ==> p < i,
            successor matches Some(q) ==> q < i,
        decreases anchors@.len() - i,
    {
        let anchor = &anchors[i];
        let ghost before = neighbors(candidate, anchors@, position(i));
        assert(neighbors(candidate, anchors@, position(i) + 1) == match before {
            None => None,
            Some((p, s)) => {
                let k = position(i);
                match observation_relation(anchors@[k], candidate) {
                    Some(Ordering::Less) => match p {
                        Some(pi) => match observation_relation(anchors@[pi], anchors@[k]) {
                            Some(Ordering::Less) => Some((Some(k), s)),
                            Some(Ordering::Greater) => Some((p, s)),
                            _ => None,
                        },
                        None => Some((Some(k), s)),
                    },
                    Some(Ordering::Greater) => match s {
                        Some(si) => match observation_relation(anchors@[k], anchors@[si]) {
                            Some(Ordering::Less) => Some((p, Some(k))),
                            Some(Ordering::Greater) => Some((p, s)),
                            _ => None,
                        },
                        None => Some((p, Some(k))),
                    },
                    _ => None,
                }
            },
        });
        match relative_order(anchor, &candidate) {
            Some(Ordering::Less) => {
                match predecessor {
                    Some(old) => {
                        match relative_order(&anchors[old], anchor) {
                            Some(Ordering::Less) => {
                                predecessor = Some(i);
                            }
                            Some(Ordering::Greater) => {}
                            _ => {
                                proof {
                                    lemma_neighbors_stay_pending(candidate, anchors@, position(i) + 1, anchor_count(anchors@));
                                }
                                return Acceptance::Pending;
                            }
                        }
                    }
                    None => {
                        predecessor = Some(i);
                    }
                }
            }
            Some(Ordering::Greater) => {
                match successor {
                    Some(old) => {
                        match relative_order(anchor, &anchors[old]) {
                            Some(Ordering::Less) => {
                                successor = Some(i);
                            }
                            Some(Ordering::Greater) => {}
                            _ => {
                                proof {
                                    lemma_neighbors_stay_pending(candidate, anchors@, position(i) + 1, anchor_count(anchors@));
                                }
                                return Acceptance::Pending;
                            }
                        }
                    }
                    None => {
                        successor = Some(i);
                    }
                }
            }
            _ => {
                proof {
                    lemma_neighbors_stay_pending(candidate, anchors@, position(i) + 1, anchor_count(anchors@));
                }
                return Acceptance::Pending;
            }
        }
        i = i + 1;
    }
    let standalone = reconcile(candidate.usage, candidate.endpoint, None);
    let previous = match predecessor {
        Some(p) => Some(anchors[p].endpoint),
        None => None,
    };
    let bridges_before = reconcile(candidate.usage, candidate.endpoint, previous).is_ok();
    let bridges_after = match successor {
        Some(q) => reconcile(anchors[q].usage, anchors[q].endpoint, Some(candidate.endpoint)).is_ok(),
        None => true,
    };
    let opening = match standalone {
        Ok(opening) => opening,
        Err(_) => false,
    };
    if standalone.is_ok() && bridges_before && bridges_after {
        Acceptance::Accept { incomplete_opening: predecessor.is_none() && opening }
    } else {
        Acceptance::Pending
    }
}

// ---------------------------------------------------------------- laws

/// An accepted bridge is exact: the endpoint equals the previous endpoint advanced by
/// the explicit delta in every category, and a bridged delta is never an opening.
pub proof fn law_bridge_is_exact_delta(usage: &Tokens, endpoint: &Tokens, previous: &Tokens)
    requires
        reconciliation(usage, endpoint, Some(previous)) is Ok,
    ensures
        reconciliation(usage, endpoint, Some(previous)) == Ok::<bool, &'static str>(false),
        forall|i: int| 0 <= i < 6 ==> #[trigger] endpoint.spec_values().unwrap()[i]
            == previous.spec_values().unwrap()[i] + usage.spec_values().unwrap()[i],
{
    let d = usage.spec_values().unwrap();
    let e = endpoint.spec_values().unwrap();
    let p = previous.spec_values().unwrap();
    lemma_bridge_error_none(d, e, p, 0);
}

proof fn lemma_bridge_error_none(delta: Seq<i64>, end: Seq<i64>, start: Seq<i64>, i: int)
    requires
        0 <= i <= 6,
        bridge_error(delta, end, start, i) is None,
    ensures
        forall|j: int| i <= j < 6 ==> end[j] == start[j] + delta[j],
    decreases 6 - i,
{
    if i < 6 {
        lemma_bridge_error_none(delta, end, start, i + 1);
    }
}

/// Conservation along a thread: two consecutive accepted deltas add up to exactly the
/// endpoint difference they span, so no usage is counted twice or lost between them.
pub proof fn law_consecutive_deltas_conserve_usage(
    first_usage: &Tokens,
    first_endpoint: &Tokens,
    second_usage: &Tokens,
    second_endpoint: &Tokens,
    start: &Tokens,
)
    requires
        reconciliation(first_usage, first_endpoint, Some(start)) is Ok,
        reconciliation(second_usage, second_endpoint, Some(first_endpoint)) is Ok,
    ensures
        forall|i: int| 0 <= i < 6 ==> #[trigger] second_endpoint.spec_values().unwrap()[i]
            == start.spec_values().unwrap()[i] + first_usage.spec_values().unwrap()[i]
                + second_usage.spec_values().unwrap()[i],
{
    law_bridge_is_exact_delta(first_usage, first_endpoint, start);
    law_bridge_is_exact_delta(second_usage, second_endpoint, first_endpoint);
    assert forall|i: int| 0 <= i < 6 implies #[trigger] second_endpoint.spec_values().unwrap()[i]
        == start.spec_values().unwrap()[i] + first_usage.spec_values().unwrap()[i]
            + second_usage.spec_values().unwrap()[i] by {
        assert(second_endpoint.spec_values().unwrap()[i] == first_endpoint.spec_values().unwrap()[i]
            + second_usage.spec_values().unwrap()[i]);
        assert(first_endpoint.spec_values().unwrap()[i] == start.spec_values().unwrap()[i]
            + first_usage.spec_values().unwrap()[i]);
    }
}

/// An opening record (no previous endpoint) is valid only when its delta fits inside
/// its endpoint; it reports unobserved earlier usage exactly when the two differ.
pub proof fn law_opening_record(usage: &Tokens, endpoint: &Tokens)
    requires
        reconciliation(usage, endpoint, None) is Ok,
    ensures
        forall|i: int| 0 <= i < 6 ==> #[trigger] usage.spec_values().unwrap()[i] <= endpoint.spec_values().unwrap()[i],
        reconciliation(usage, endpoint, None) == Ok::<bool, &'static str>(usage.spec_values().unwrap() != endpoint.spec_values().unwrap()),
{
}

/// Counter order is antisymmetric: one endpoint precedes another exactly when the
/// other follows it, and equality is symmetric.
pub proof fn law_endpoint_order_antisymmetric(left: &Tokens, right: &Tokens)
    ensures
        (endpoint_relation(left, right) == Some(Ordering::Less)) == (endpoint_relation(right, left) == Some(Ordering::Greater)),
        (endpoint_relation(left, right) == Some(Ordering::Equal)) == (endpoint_relation(right, left) == Some(Ordering::Equal)),
        (endpoint_relation(left, right) is None) == (endpoint_relation(right, left) is None),
{
}

/// Observation order is antisymmetric in the same way.
pub proof fn law_observation_order_antisymmetric(left: ObservationFacts, right: ObservationFacts)
    ensures
        (observation_relation(left, right) == Some(Ordering::Less)) == (observation_relation(right, left) == Some(Ordering::Greater)),
        (observation_relation(left, right) is None) == (observation_relation(right, left) is None),
{
    law_endpoint_order_antisymmetric(left.endpoint, right.endpoint);
}

proof fn lemma_neighbors_ordered(candidate: ObservationFacts, anchors: Seq<ObservationFacts>, n: int)
    requires
        0 <= n <= anchors.len(),
        neighbors(candidate, anchors, n) is Some,
    ensures
        forall|k: int| 0 <= k < n ==> {
            let relation = #[trigger] observation_relation(anchors[k], candidate);
            relation == Some(Ordering::Less) || relation == Some(Ordering::Greater)
        },
        neighbors(candidate, anchors, n).unwrap().0 is None ==> forall|k: int| 0 <= k < n
            ==> #[trigger] observation_relation(anchors[k], candidate) != Some(Ordering::Less),
    decreases n,
{
    if n > 0 {
        lemma_neighbors_ordered(candidate, anchors, n - 1);
    }
}

/// A candidate is accepted only when it is valid on its own, strictly ordered with every
/// confirmed neighbor, and known about every anchor; an incomplete opening has no
/// confirmed predecessor and an endpoint larger than its own delta.
pub proof fn law_acceptance_requires_validity_and_order(
    candidate: ObservationFacts,
    anchors: Seq<ObservationFacts>,
    unknown_anchor: bool,
)
    requires
        assessment(candidate, anchors, unknown_anchor) is Accept,
    ensures
        !unknown_anchor,
        anchors.len() <= 6,
        reconciliation(candidate.usage, candidate.endpoint, None) is Ok,
        forall|k: int| 0 <= k < anchors.len() ==> {
            let relation = #[trigger] observation_relation(anchors[k], candidate);
            relation == Some(Ordering::Less) || relation == Some(Ordering::Greater)
        },
        assessment(candidate, anchors, unknown_anchor)->incomplete_opening ==> {
            &&& reconciliation(candidate.usage, candidate.endpoint, None) == Ok::<bool, &'static str>(true)
            &&& forall|k: int| 0 <= k < anchors.len() ==> #[trigger] observation_relation(anchors[k], candidate) != Some(Ordering::Less)
        },
{
    lemma_neighbors_ordered(candidate, anchors, anchor_count(anchors));
}

proof fn lemma_neighbors_found(candidate: ObservationFacts, anchors: Seq<ObservationFacts>, n: int)
    requires
        0 <= n <= anchors.len(),
        neighbors(candidate, anchors, n) is Some,
    ensures
        ({
            let (p, s) = neighbors(candidate, anchors, n).unwrap();
            &&& (p is Some <==> exists|k: int| 0 <= k < n && #[trigger] observation_relation(anchors[k], candidate) == Some(Ordering::Less))
            &&& (s is Some <==> exists|k: int| 0 <= k < n && #[trigger] observation_relation(anchors[k], candidate) == Some(Ordering::Greater))
            &&& p matches Some(i) ==> 0 <= i < n && observation_relation(anchors[i], candidate) == Some(Ordering::Less)
            &&& s matches Some(j) ==> 0 <= j < n && observation_relation(anchors[j], candidate) == Some(Ordering::Greater)
        }),
    decreases n,
{
    if n > 0 {
        lemma_neighbors_found(candidate, anchors, n - 1);
        let k = n - 1;
        let r = observation_relation(anchors[k], candidate);
        let (p0, s0) = neighbors(candidate, anchors, n - 1).unwrap();
        if r == Some(Ordering::Less) {
            assert(exists|q: int| 0 <= q < n && #[trigger] observation_relation(anchors[q], candidate) == Some(Ordering::Less));
        }
        if r == Some(Ordering::Greater) {
            assert(exists|q: int| 0 <= q < n && #[trigger] observation_relation(anchors[q], candidate) == Some(Ordering::Greater));
        }
        let (p, s) = neighbors(candidate, anchors, n).unwrap();
        if p is None {
            assert forall|q: int| 0 <= q < n implies #[trigger] observation_relation(anchors[q], candidate) != Some(Ordering::Less) by {
                if q < n - 1 {
                    if observation_relation(anchors[q], candidate) == Some(Ordering::Less) {
                        assert(exists|z: int| 0 <= z < n - 1 && #[trigger] observation_relation(anchors[z], candidate) == Some(Ordering::Less));
                    }
                }
            }
        }
        if s is None {
            assert forall|q: int| 0 <= q < n implies #[trigger] observation_relation(anchors[q], candidate) != Some(Ordering::Greater) by {
                if q < n - 1 {
                    if observation_relation(anchors[q], candidate) == Some(Ordering::Greater) {
                        assert(exists|z: int| 0 <= z < n - 1 && #[trigger] observation_relation(anchors[z], candidate) == Some(Ordering::Greater));
                    }
                }
            }
        }
    }
}

/// An accepted candidate is bridged on both sides: when a confirmed anchor precedes it,
/// its delta exactly explains the gap from a preceding anchor's endpoint; when one
/// follows it, a following anchor's delta exactly explains the gap from its endpoint.
/// It is an incomplete opening exactly when no anchor precedes it and its endpoint
/// differs from its own delta.
pub proof fn law_acceptance_bridges_both_sides(
    candidate: ObservationFacts,
    anchors: Seq<ObservationFacts>,
    unknown_anchor: bool,
)
    requires
        assessment(candidate, anchors, unknown_anchor) is Accept,
    ensures
        (exists|k: int| 0 <= k < anchors.len() && #[trigger] observation_relation(anchors[k], candidate) == Some(Ordering::Less))
            ==> exists|i: int| 0 <= i < anchors.len() && #[trigger] observation_relation(anchors[i], candidate) == Some(Ordering::Less)
                && reconciliation(candidate.usage, candidate.endpoint, Some(anchors[i].endpoint)) is Ok,
        (exists|k: int| 0 <= k < anchors.len() && #[trigger] observation_relation(anchors[k], candidate) == Some(Ordering::Greater))
            ==> exists|j: int| 0 <= j < anchors.len() && #[trigger] observation_relation(anchors[j], candidate) == Some(Ordering::Greater)
                && reconciliation(anchors[j].usage, anchors[j].endpoint, Some(candidate.endpoint)) is Ok,
        assessment(candidate, anchors, unknown_anchor)->incomplete_opening <==> {
            &&& forall|k: int| 0 <= k < anchors.len() ==> #[trigger] observation_relation(anchors[k], candidate) != Some(Ordering::Less)
            &&& reconciliation(candidate.usage, candidate.endpoint, None) == Ok::<bool, &'static str>(true)
        },
{
    lemma_neighbors_found(candidate, anchors, anchor_count(anchors));
    let (p, s) = neighbors(candidate, anchors, anchor_count(anchors)).unwrap();
    if let Some(i) = p {
        assert(observation_relation(anchors[i], candidate) == Some(Ordering::Less));
    }
    if let Some(j) = s {
        assert(observation_relation(anchors[j], candidate) == Some(Ordering::Greater));
    }
}


/// Counter order as the lookup key sorts: total first, then input, cached input, cache
/// writes, output and reasoning, each compared as a number.
pub open spec fn key_order_lt(x: Seq<i64>, y: Seq<i64>) -> bool {
    if x[5] != y[5] {
        x[5] < y[5]
    } else if x[0] != y[0] {
        x[0] < y[0]
    } else if x[1] != y[1] {
        x[1] < y[1]
    } else if x[2] != y[2] {
        x[2] < y[2]
    } else if x[3] != y[3] {
        x[3] < y[3]
    } else {
        x[4] < y[4]
    }
}

proof fn lemma_concat_eq(a1: Seq<char>, a2: Seq<char>, b1: Seq<char>, b2: Seq<char>)
    requires
        a1.len() == b1.len(),
    ensures
        (a1 + a2 == b1 + b2) == (a1 == b1 && a2 == b2),
{
    if a1 + a2 == b1 + b2 {
        assert(a1 =~= (a1 + a2).take(a1.len() as int));
        assert(b1 =~= (b1 + b2).take(b1.len() as int));
        assert(a2 =~= (a1 + a2).skip(a1.len() as int));
        assert(b2 =~= (b1 + b2).skip(b1.len() as int));
    }
}

proof fn lemma_join(pa: Seq<char>, xa: Seq<char>, pb: Seq<char>, xb: Seq<char>)
    requires
        pa.len() == pb.len(),
    ensures
        (pa + xa == pb + xb) == (pa == pb && xa == xb),
        text_lt(pa + xa, pb + xb) == if pa == pb { text_lt(xa, xb) } else { text_lt(pa, pb) },
{
    lemma_concat_eq(pa, xa, pb, xb);
    lemma_text_lt_concat(pa, xa, pb, xb);
}

proof fn lemma_key_order(x: Seq<i64>, y: Seq<i64>)
    requires
        x.len() == 6,
        y.len() == 6,
        forall|i: int| 0 <= i < 6 ==> x[i] >= 0,
        forall|i: int| 0 <= i < 6 ==> y[i] >= 0,
    ensures
        counter_text(x) is Some,
        counter_text(x).unwrap().len() == 96,
        (counter_text(x) == counter_text(y)) == (x == y),
        text_lt(counter_text(x).unwrap(), counter_text(y).unwrap()) == key_order_lt(x, y),
{
    assert(pow16(16) == 0x1_0000_0000_0000_0000) by {
        reveal_with_fuel(pow16, 17);
    }
    assert forall|i: int, j: int| 0 <= i < 6 && 0 <= j < 6 implies {
        &&& (#[trigger] hex_digits(x[i] as nat, 16)).len() == 16
        &&& (hex_digits(x[i] as nat, 16) == #[trigger] hex_digits(y[j] as nat, 16)) == (x[i] == y[j])
        &&& text_lt(hex_digits(x[i] as nat, 16), hex_digits(y[j] as nat, 16)) == (x[i] < y[j])
    } by {
        lemma_hex_order(x[i] as nat, y[j] as nat, 16);
    }
    assert forall|j: int| 0 <= j < 6 implies (#[trigger] hex_digits(y[j] as nat, 16)).len() == 16 by {
        lemma_hex_order(y[j] as nat, y[j] as nat, 16);
    }
    let a5 = hex_digits(x[5] as nat, 16);
    let a0 = hex_digits(x[0] as nat, 16);
    let a1 = hex_digits(x[1] as nat, 16);
    let a2 = hex_digits(x[2] as nat, 16);
    let a3 = hex_digits(x[3] as nat, 16);
    let a4 = hex_digits(x[4] as nat, 16);
    let b5 = hex_digits(y[5] as nat, 16);
    let b0 = hex_digits(y[0] as nat, 16);
    let b1 = hex_digits(y[1] as nat, 16);
    let b2 = hex_digits(y[2] as nat, 16);
    let b3 = hex_digits(y[3] as nat, 16);
    let b4 = hex_digits(y[4] as nat, 16);
    assert(a5.len() == 16 && b5.len() == 16 && a0.len() == 16 && b0.len() == 16);
    assert(a1.len() == 16 && b1.len() == 16 && a2.len() == 16 && b2.len() == 16);
    assert(a3.len() == 16 && b3.len() == 16 && a4.len() == 16 && b4.len() == 16);
    lemma_join(a5, a0, b5, b0);
    lemma_join(a5 + a0, a1, b5 + b0, b1);
    lemma_join(a5 + a0 + a1, a2, b5 + b0 + b1, b2);
    lemma_join(a5 + a0 + a1 + a2, a3, b5 + b0 + b1 + b2, b3);
    lemma_join(a5 + a0 + a1 + a2 + a3, a4, b5 + b0 + b1 + b2 + b3, b4);
    if x[0] == y[0] && x[1] == y[1] && x[2] == y[2] && x[3] == y[3] && x[4] == y[4] && x[5] == y[5] {
        assert(x =~= y);
    }
}

/// The lookup key of an endpoint follows its counters: it exists exactly when no counter
/// is negative; two keys are equal exactly when the counters are, and sort as the
/// counters do (total first); so an endpoint that precedes another in counter order
/// has the smaller key.
pub proof fn law_endpoint_key_follows_counter_order(a: &Tokens, b: &Tokens)
    requires
        a.spec_values() is Some,
        b.spec_values() is Some,
    ensures
        endpoint_text(a) is Some <==> forall|i: int| 0 <= i < 6 ==> a.spec_values().unwrap()[i] >= 0,
        endpoint_text(a) is Some && endpoint_text(b) is Some ==> {
            &&& endpoint_text(a).unwrap().len() == 96
            &&& (endpoint_text(a) == endpoint_text(b)) == (a.spec_values() == b.spec_values())
            &&& text_lt(endpoint_text(a).unwrap(), endpoint_text(b).unwrap())
                == key_order_lt(a.spec_values().unwrap(), b.spec_values().unwrap())
        },
        endpoint_text(a) is Some && endpoint_text(b) is Some && endpoint_relation(a, b) == Some(Ordering::Less)
            ==> text_lt(endpoint_text(a).unwrap(), endpoint_text(b).unwrap()),
{
    let x = a.spec_values().unwrap();
    let y = b.spec_values().unwrap();
    if endpoint_text(a) is Some && endpoint_text(b) is Some {
        lemma_key_order(x, y);
        if endpoint_relation(a, b) == Some(Ordering::Less) {
            assert(forall|i: int| 0 <= i < 6 ==> x[i] <= y[i]);
            assert(x != y);
            if x[0] == y[0] && x[1] == y[1] && x[2] == y[2] && x[3] == y[3] && x[4] == y[4] && x[5] == y[5] {
                assert(x =~= y);
            }
        }
    }
}

} // verus!
