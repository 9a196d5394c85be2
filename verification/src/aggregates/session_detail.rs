//! Direct-session detail contracts and bounded, exact history projection.
use super::{Attribution, Category, EstimatedCost, ReadError, Summary};
use crate::text::{decimal, i128_text, parse_i128, parsed_i128};
use crate::weekly::{time_nanos, Time};
use super::analytics::trunc_div;
use vstd::math::abs;
use vstd::prelude::*;

verus! {

pub const DEFAULT_POINTS: u32 = 512;
pub const MAX_POINTS: u32 = 4096;

/// The chart point budget: 512 by default, otherwise between 8 and 4096.
pub fn point_budget(value: Option<u32>) -> (result: Result<usize, ReadError>)
    ensures
        match value {
            Some(v) => if 8 <= v <= MAX_POINTS { result == Ok::<usize, ReadError>(v as usize) }
                else { result == Err::<usize, ReadError>(ReadError::InvalidQuery) },
            None => result == Ok::<usize, ReadError>(DEFAULT_POINTS as usize),
        },
{
    let value = match value {
        Some(v) => v,
        None => DEFAULT_POINTS,
    };
    if !(8 <= value && value <= MAX_POINTS) {
        return Err(ReadError::InvalidQuery);
    }
    Ok(value as usize)
}

/// Why a model's share of a session's cost is unavailable.
#[derive(Clone, Copy, Debug, PartialEq, Eq, Structural)]
pub enum ShareUnavailable {
    Incomplete,
    Unavailable,
    ZeroDenominator,
}

/// Integer division truncated toward zero, as Rust's `/` on integers (any non-zero `b`).
pub open spec fn quotient_toward_zero(a: int, b: int) -> int {
    if (a >= 0) == (b > 0) {
        abs(a) as int / abs(b) as int
    } else {
        -(abs(a) as int / abs(b) as int)
    }
}

/// The remainder that goes with `quotient_toward_zero`, as Rust's `%`.
pub open spec fn remainder_toward_zero(a: int, b: int) -> int {
    a - b * quotient_toward_zero(a, b)
}

/// A share in hundredths of a percent: `row * 10000 / session` truncated toward zero,
/// plus one when twice the remainder reaches the denominator.
pub open spec fn share_hundredths(row: int, session: int) -> int {
    let n = row * 10000;
    let q = quotient_toward_zero(n, session);
    if remainder_toward_zero(n, session) * 2 >= session { q + 1 } else { q }
}

/// Decimal text padded on the left with `0` to at least two characters.
pub open spec fn padded_two(t: Seq<char>) -> Seq<char> {
    if t.len() >= 2 { t } else { seq!['0'] + t }
}

/// A share's text: whole percent, `.`, and the two-place hundredths, each taken with
/// truncating `/` and `%` by 100.
pub open spec fn share_text(hundredths: int) -> Seq<char> {
    decimal(quotient_toward_zero(hundredths, 100)) + seq!['.']
        + padded_two(decimal(remainder_toward_zero(hundredths, 100)))
}

/// A model's share of the session's direct cost: unavailable without both subtotals,
/// incomplete when either side is incomplete, refused when a subtotal is not an
/// integer, and undefined over a zero session cost.
pub open spec fn share_outcome(row: EstimatedCost, session: EstimatedCost) -> Result<
    (Option<Seq<char>>, Option<ShareUnavailable>),
    ReadError,
> {
    match (row.known_subtotal, session.known_subtotal) {
        (Some(r), Some(t)) => if !row.complete || !session.complete {
            Ok((None, Some(ShareUnavailable::Incomplete)))
        } else {
            match (parsed_i128(r@), parsed_i128(t@)) {
                (Some(a), Some(b)) => if b == 0 {
                    Ok((None, Some(ShareUnavailable::ZeroDenominator)))
                } else {
                    Ok((Some(share_text(share_hundredths(a as int, b as int))), None))
                },
                _ => Err(ReadError::Storage),
            }
        },
        _ => Ok((None, Some(ShareUnavailable::Unavailable))),
    }
}

/// `ten * r` split as a multiple of `d` and a remainder, for `r < d`.
fn times_ten(r: u128, d: u128) -> (result: (u128, u128))
    requires
        r < d,
    ensures
        result.0 < 10,
        result.1 < d,
        r * 10 == result.0 * d + result.1,
{
    let mut q: u128 = 0;
    let mut acc: u128 = 0;
    let mut k: u128 = 0;
    while k < 10
        invariant
            k <= 10,
            r < d,
            acc < d,
            q <= k,
            r * k == q * d + acc,
        decreases 10 - k,
    {
        assert(r * (k + 1) == r * k + r && (q + 1) * d == q * d + d) by (nonlinear_arith);
        if acc >= d - r {
            acc = acc - (d - r);
            q = q + 1;
        } else {
            acc = acc + r;
        }
        k = k + 1;
    }
    proof {
        let (qq, dd, rr, aa) = (q as int, d as int, r as int, acc as int);
        assert(qq < 10) by (nonlinear_arith)
            requires
                rr * 10 == qq * dd + aa,
                0 <= rr < dd,
                0 <= aa,
                0 <= qq,
        ;
    }
    (q, acc)
}

/// `10000 * r` split as a multiple of `d` and a remainder, for `r < d`: four decimal
/// long-division steps.
fn times_ten_thousand(r: u128, d: u128) -> (result: (u128, u128))
    requires
        r < d,
    ensures
        result.0 < 10000,
        result.1 < d,
        r * 10000 == result.0 * d + result.1,
{
    let (d1, r1) = times_ten(r, d);
    let (d2, r2) = times_ten(r1, d);
    let (d3, r3) = times_ten(r2, d);
    let (d4, r4) = times_ten(r3, d);
    proof {
        let (x, dd, a1, a2, a3, a4, b1, b2, b3, b4) = (
            r as int, d as int, d1 as int, d2 as int, d3 as int, d4 as int, r1 as int, r2 as int, r3 as int, r4 as int);
        assert(x * 10000 == (a1 * 1000 + a2 * 100 + a3 * 10 + a4) * dd + b4) by (nonlinear_arith)
            requires
                x * 10 == a1 * dd + b1,
                b1 * 10 == a2 * dd + b2,
                b2 * 10 == a3 * dd + b3,
                b3 * 10 == a4 * dd + b4,
        ;
    }
    (d1 * 1000 + d2 * 100 + d3 * 10 + d4, r4)
}

/// The magnitude of a signed integer.
fn magnitude(x: i128) -> (result: u128)
    ensures
        result == abs(x as int),
{
    if x < 0 {
        ((-(x + 1)) as u128) + 1
    } else {
        x as u128
    }
}

/// Truncating division of `n = a * 10000` by `b` from magnitudes: when
/// `|a| * 10000 == hundredths * |b| + rest` with `rest < |b|`, the quotient is
/// `hundredths` with the sign of `a * b`, and the remainder is `rest` with `a`'s sign.
proof fn lemma_scaled_division(a: int, b: int, hundredths: int, rest: int)
    requires
        b != 0,
        hundredths >= 0,
        0 <= rest < abs(b),
        abs(a) * 10000 == hundredths * abs(b) + rest,
    ensures
        quotient_toward_zero(a * 10000, b) == if (a >= 0) == (b > 0) { hundredths } else { -hundredths },
        remainder_toward_zero(a * 10000, b) == if a >= 0 { rest } else { -rest },
{
    let n = a * 10000;
    assert(abs(n) == abs(a) * 10000);
    assert((n >= 0) == (a >= 0));
    vstd::arithmetic::div_mod::lemma_fundamental_div_mod_converse(abs(n) as int, abs(b) as int, hundredths, rest);
    let q = quotient_toward_zero(n, b);
    if (a >= 0) == (b > 0) {
        assert(q == hundredths);
        if a >= 0 {
            assert(b * q == hundredths * abs(b)) by (nonlinear_arith)
                requires
                    b > 0,
                    q == hundredths,
            ;
        } else {
            assert(b * q == -(hundredths * abs(b))) by (nonlinear_arith)
                requires
                    b < 0,
                    q == hundredths,
            ;
        }
    } else {
        assert(q == -hundredths);
        if a >= 0 {
            assert(b * q == hundredths * abs(b)) by (nonlinear_arith)
                requires
                    b < 0,
                    q == -hundredths,
            ;
        } else {
            assert(b * q == -(hundredths * abs(b))) by (nonlinear_arith)
                requires
                    b > 0,
                    q == -hundredths,
            ;
        }
    }
}

/// Digits of `m * 100 + t` for a non-zero `m` and `t < 100`: `m`'s digits, then `t` in
/// two places.
proof fn lemma_digits_hundreds(m: nat, t: nat)
    requires
        m >= 1,
        t < 100,
    ensures
        crate::text::digits(m * 100 + t) == crate::text::digits(m) + crate::text::zero_padded(t, 2),
{
    let x = m * 100 + t;
    assert(x / 10 == m * 10 + t / 10 && x % 10 == t % 10) by (nonlinear_arith)
        requires
            x == m * 100 + t,
            t < 100,
    ;
    let y = m * 10 + t / 10;
    assert(y / 10 == m && y % 10 == t / 10) by (nonlinear_arith)
        requires
            y == m * 10 + t / 10,
            t < 100,
    ;
    assert(crate::text::digits(x) == crate::text::digits(y).push(crate::text::digit_char((t % 10) as int)));
    assert(crate::text::digits(y) == crate::text::digits(m).push(crate::text::digit_char((t / 10) as int)));
    if t < 10 {
        assert(crate::text::digits(t) == seq![crate::text::digit_char(t as int)]);
        assert(crate::text::zero_padded(t, 2) =~= seq![crate::text::digit_char(0), crate::text::digit_char(t as int)]);
    } else {
        assert(crate::text::digits(t / 10) == seq![crate::text::digit_char((t / 10) as int)]);
        assert(crate::text::digits(t) =~= seq![crate::text::digit_char((t / 10) as int), crate::text::digit_char((t % 10) as int)]);
    }
    assert(crate::text::digits(x) =~= crate::text::digits(m) + crate::text::zero_padded(t, 2));
}

/// The text of the share `sign * (m * 10000 + g)` hundredths.
fn share_string(negative: bool, m: u128, g: u128) -> (result: String)
    requires
        g < 10000,
        negative ==> m * 10000 + g > 0,
    ensures
        result@ == share_text(if negative { -(m * 10000 + g) } else { m * 10000 + g }),
{
    let ghost h: int = if negative { -(m * 10000 + g) } else { m * 10000 + g };
    let whole_small = g / 100;
    let frac = g % 100;
    let ghost w: int = m * 100 + whole_small;
    proof {
        let (mm, gg, ws, fr) = (m as int, g as int, whole_small as int, frac as int);
        assert((mm * 10000 + gg) / 100 == mm * 100 + ws && (mm * 10000 + gg) % 100 == fr) by (nonlinear_arith)
            requires
                ws == gg / 100,
                fr == gg % 100,
                0 <= gg < 10000,
                mm >= 0,
        ;
        assert(quotient_toward_zero(h, 100) == if negative { -w } else { w });
        assert(remainder_toward_zero(h, 100) == if negative { -(frac as int) } else { frac as int });
    }
    let mut text = String::new();
    if negative && (m > 0 || whole_small > 0) {
        crate::text::push_char(&mut text, '-');
    }
    if m > 0 {
        crate::text::push_u128(&mut text, m);
        crate::text::push_padded(&mut text, whole_small, 2);
        proof {
            lemma_digits_hundreds(m as nat, whole_small as nat);
        }
    } else {
        crate::text::push_u128(&mut text, whole_small);
    }
    proof {
        assert(text@ == decimal(if negative { -w } else { w }));
    }
    crate::text::push_char(&mut text, '.');
    let ghost head = text@;
    if negative && frac > 0 {
        crate::text::push_char(&mut text, '-');
        crate::text::push_u128(&mut text, frac);
        proof {
            let d = crate::text::digits(frac as nat);
            assert(decimal(-(frac as int)) == seq!['-'] + d);
            assert(d.len() >= 1) by {
                if frac >= 10 {
                    assert(d == crate::text::digits((frac / 10) as nat).push(crate::text::digit_char((frac % 10) as int)));
                }
            }
            assert(text@ =~= head + padded_two(decimal(-(frac as int))));
        }
    } else {
        crate::text::push_padded(&mut text, frac, 2);
        proof {
            let d = crate::text::digits(frac as nat);
            assert(decimal(frac as int) == d);
            if d.len() < 2 {
                assert(crate::text::zero_padded(frac as nat, 2) =~= seq!['0'] + d);
            }
            assert(remainder_toward_zero(h, 100) == frac as int);
            assert(text@ =~= head + padded_two(decimal(frac as int)));
        }
    }
    text
}

/// A model's share of the whole session's direct estimated cost, as a two-place
/// decimal percentage rounded half up, or the reason it is unavailable.
pub fn cost_share(row: &EstimatedCost, session: &EstimatedCost) -> (result: Result<
    (Option<String>, Option<ShareUnavailable>),
    ReadError,
>)
    ensures
        match result {
            Ok((text, reason)) => share_outcome(*row, *session) == Ok::<(Option<Seq<char>>, Option<ShareUnavailable>), ReadError>((
                match text { Some(t) => Some(t@), None => None },
                reason,
            )),
            Err(e) => share_outcome(*row, *session) == Err::<(Option<Seq<char>>, Option<ShareUnavailable>), ReadError>(e),
        },
{
    let (row_text, session_text) = match (&row.known_subtotal, &session.known_subtotal) {
        (Some(r), Some(t)) => (r, t),
        _ => return Ok((None, Some(ShareUnavailable::Unavailable))),
    };
    if !row.complete || !session.complete {
        return Ok((None, Some(ShareUnavailable::Incomplete)));
    }
    let a = match parse_i128(row_text.as_str()) {
        Some(v) => v,
        None => return Err(ReadError::Storage),
    };
    let b = match parse_i128(session_text.as_str()) {
        Some(v) => v,
        None => return Err(ReadError::Storage),
    };
    if b == 0 {
        return Ok((None, Some(ShareUnavailable::ZeroDenominator)));
    }
    let magnitude_a = magnitude(a);
    let d = magnitude(b);
    let whole = magnitude_a / d;
    let part = magnitude_a % d;
    let (f, rest) = times_ten_thousand(part, d);
    proof {
        vstd::arithmetic::div_mod::lemma_fundamental_div_mod(magnitude_a as int, d as int);
        let (aa, dd, w, p, ff, rr) = (magnitude_a as int, d as int, whole as int, part as int, f as int, rest as int);
        assert(aa * 10000 == (w * 10000 + ff) * dd + rr) by (nonlinear_arith)
            requires
                aa == dd * w + p,
                p * 10000 == ff * dd + rr,
        ;
        lemma_scaled_division(a as int, b as int, w * 10000 + ff, rr);
    }
    let same_sign = (a >= 0) == (b > 0);
    let negative_quotient = !same_sign && (whole > 0 || f > 0);
    let round_up = if b > 0 { a >= 0 && rest >= d - rest } else { a >= 0 || rest <= d - rest };
    let (negative, m, g) = if !round_up {
        (negative_quotient, whole, f)
    } else if !negative_quotient {
        if f + 1 == 10000 { (false, whole + 1, 0u128) } else { (false, whole, f + 1) }
    } else if f > 0 {
        (whole > 0 || f > 1, whole, f - 1)
    } else {
        (true, whole - 1, 9999u128)
    };
    proof {
        assert(share_hundredths(a as int, b as int) == if negative { -(m * 10000 + g) } else { m * 10000 + g });
    }
    let text = share_string(negative, m, g);
    Ok((Some(text), None))
}

/// A model that carries the whole session's positive direct cost has a share of
/// exactly `100.00`.
pub proof fn law_whole_session_share_is_one_hundred(amount: int)
    requires
        amount > 0,
    ensures
        share_text(share_hundredths(amount, amount)) == seq!['1', '0', '0', '.', '0', '0'],
{
    vstd::arithmetic::div_mod::lemma_fundamental_div_mod_converse(amount * 10000, amount, 10000, 0);
    assert(quotient_toward_zero(amount * 10000, amount) == 10000);
    assert(remainder_toward_zero(amount * 10000, amount) == 0) by (nonlinear_arith)
        requires
            quotient_toward_zero(amount * 10000, amount) == 10000,
            remainder_toward_zero(amount * 10000, amount) == amount * 10000 - amount * quotient_toward_zero(amount * 10000, amount),
    ;
    assert(share_hundredths(amount, amount) == 10000);
    assert(abs(10000int) == 10000 && abs(100int) == 100);
    assert(quotient_toward_zero(10000, 100) == 100);
    assert(remainder_toward_zero(10000, 100) == 0);
    reveal_with_fuel(crate::text::digits, 4);
    assert(decimal(100) =~= seq!['1', '0', '0']);
    assert(decimal(0) =~= seq!['0']);
    assert(padded_two(decimal(0)) =~= seq!['0', '0']);
}

/// One model's direct usage within a session.
#[derive(Clone, Debug)]
pub struct ModelUsage {
    pub attribution: Attribution,
    pub direct: Summary,
    pub cost_share: Option<String>,
    pub cost_share_unavailable_reason: Option<ShareUnavailable>,
}

/// A page of a session's models; the denominator is the whole session.
#[derive(Clone, Debug)]
pub struct Models {
    pub scope: &'static str,
    pub items: Vec<ModelUsage>,
    pub next_cursor: Option<String>,
    pub total_items: u64,
    pub direct: Summary,
}

/// A cumulative chart point. `segments` holds, per series (tokens, cost), the
/// continuity identifier of a complete segment.
#[derive(Clone, Debug)]
pub struct Point {
    pub time: Time,
    pub cumulative_total_tokens: Category,
    pub cumulative_estimated_cost: EstimatedCost,
    pub tokens_connect_from_previous: bool,
    pub cost_connect_from_previous: bool,
    pub segments: [Option<u64>; 2],
}

/// Why a chart series starts a new segment.
#[derive(Clone, Copy, Debug, PartialEq, Eq, Structural)]
pub enum BoundaryKind {
    ObservationStart,
    MissingTokens,
    TokensResumed,
    UnpricedUsage,
    PricedUsageResumed,
}

/// Boundaries falling into one chart bin.
#[derive(Clone, Debug)]
pub struct Boundary {
    pub bin_index: usize,
    pub first_time: Time,
    pub last_time: Time,
    pub count: u64,
    pub kinds: Vec<BoundaryKind>,
    pub overloaded: bool,
}

/// A session's bounded cumulative history.
#[derive(Clone, Debug)]
pub struct Timeline {
    pub scope: &'static str,
    pub time_source: &'static str,
    pub first_observed_at: Option<Time>,
    pub last_observed_at: Option<Time>,
    pub point_budget: usize,
    pub bin_count: usize,
    pub source_observation_count: u64,
    pub source_point_count: u64,
    pub returned_point_count: usize,
    pub untimed_observation_count: u64,
    pub direct: Summary,
    pub points: Vec<Point>,
    pub boundaries: Vec<Boundary>,
    pub coverage_note: &'static str,
}

/// All accepted observations at one identical timestamp.
#[derive(Clone, Debug)]
pub struct UsageGroup {
    pub time: Time,
    pub accepted: u64,
    pub tokens: Option<i64>,
    pub tokens_known: u64,
    pub cost: Option<String>,
    pub priced: u64,
}

/// Running totals of a session's cumulative series.
#[derive(Clone, Debug)]
pub struct Projection {
    pub tokens: Option<i64>,
    pub cost: Option<i128>,
    pub accepted: u64,
    pub tokens_known: u64,
    pub priced: u64,
    pub previous_complete: Option<[bool; 2]>,
    pub segments: [u64; 2],
}

/// The boundaries a group opens, given the previous groups' completeness.
pub open spec fn group_boundaries(previous: Option<[bool; 2]>, complete: Seq<bool>) -> Seq<BoundaryKind> {
    let start = if previous is None { seq![BoundaryKind::ObservationStart] } else { Seq::empty() };
    let tokens_changed = match previous { Some(p) => p@[0] != complete[0], None => true };
    let cost_changed = match previous { Some(p) => p@[1] != complete[1], None => true };
    let tokens = if tokens_changed && (previous is Some || !complete[0]) {
        seq![if complete[0] { BoundaryKind::TokensResumed } else { BoundaryKind::MissingTokens }]
    } else {
        Seq::empty()
    };
    let cost = if cost_changed && (previous is Some || !complete[1]) {
        seq![if complete[1] { BoundaryKind::PricedUsageResumed } else { BoundaryKind::UnpricedUsage }]
    } else {
        Seq::empty()
    };
    start + tokens + cost
}

/// Whether each series' completeness changes with this group (a new segment begins).
pub open spec fn segment_changes(previous: Option<[bool; 2]>, complete: Seq<bool>, series: int) -> bool {
    match previous {
        Some(p) => p@[series] != complete[series],
        None => true,
    }
}

pub open spec fn group_complete(group: UsageGroup) -> Seq<bool> {
    seq![group.tokens_known == group.accepted, group.priced == group.accepted]
}

/// The running totals after a group is accepted: counts add up, and the token and cost
/// subtotals add the group's known values (absent until some value is known).
pub open spec fn pushed_totals(before: Projection, group: UsageGroup, after: Projection) -> bool {
    &&& after.accepted == before.accepted + group.accepted
    &&& after.tokens_known == before.tokens_known + group.tokens_known
    &&& after.priced == before.priced + group.priced
    &&& tokens_view(after.tokens) == match group.tokens {
        Some(t) => Some(tokens_view(before.tokens).unwrap_or(0) + t),
        None => tokens_view(before.tokens),
    }
    &&& cost_view(after.cost) == match group.cost {
        Some(c) => Some(cost_view(before.cost).unwrap_or(0) + parsed_i128(c@).unwrap()),
        None => cost_view(before.cost),
    }
}

/// An optional token subtotal as an integer.
pub open spec fn tokens_view(value: Option<i64>) -> Option<int> {
    match value {
        Some(v) => Some(v as int),
        None => None,
    }
}

/// An optional cost subtotal as an integer.
pub open spec fn cost_view(value: Option<i128>) -> Option<int> {
    match value {
        Some(v) => Some(v as int),
        None => None,
    }
}

/// Total accepted observations of groups.
pub open spec fn accepted_sum(groups: Seq<UsageGroup>) -> int
    decreases groups.len(),
{
    if groups.len() == 0 { 0 } else { accepted_sum(groups.drop_last()) + groups.last().accepted }
}

/// Observations with a known token total, over groups.
pub open spec fn known_sum(groups: Seq<UsageGroup>) -> int
    decreases groups.len(),
{
    if groups.len() == 0 { 0 } else { known_sum(groups.drop_last()) + groups.last().tokens_known }
}

/// Priced observations, over groups.
pub open spec fn priced_sum(groups: Seq<UsageGroup>) -> int
    decreases groups.len(),
{
    if groups.len() == 0 { 0 } else { priced_sum(groups.drop_last()) + groups.last().priced }
}

/// The sum of the known token totals of groups; absent when none is known.
pub open spec fn tokens_sum(groups: Seq<UsageGroup>) -> Option<int>
    decreases groups.len(),
{
    if groups.len() == 0 {
        None
    } else {
        match groups.last().tokens {
            Some(t) => Some(tokens_sum(groups.drop_last()).unwrap_or(0) + t),
            None => tokens_sum(groups.drop_last()),
        }
    }
}

/// The sum of the known costs of groups; absent when none is known.
pub open spec fn cost_sum(groups: Seq<UsageGroup>) -> Option<int>
    decreases groups.len(),
{
    if groups.len() == 0 {
        None
    } else {
        match groups.last().cost {
            Some(c) => Some(cost_sum(groups.drop_last()).unwrap_or(0) + parsed_i128(c@).unwrap()),
            None => cost_sum(groups.drop_last()),
        }
    }
}

/// Cumulative series are exact sums: after a fresh projection accepts a sequence of
/// groups, its totals are the sums over all of them, and each known subtotal is absent
/// exactly when no group knew a value.
pub proof fn law_projection_sums_groups(states: Seq<Projection>, groups: Seq<UsageGroup>)
    requires
        states.len() == groups.len() + 1,
        states[0].accepted == 0 && states[0].tokens_known == 0 && states[0].priced == 0,
        states[0].tokens is None && states[0].cost is None,
        forall|i: int| 0 <= i < groups.len() ==> #[trigger] pushed_totals(states[i], groups[i], states[i + 1]),
    ensures
        states.last().accepted == accepted_sum(groups),
        states.last().tokens_known == known_sum(groups),
        states.last().priced == priced_sum(groups),
        tokens_view(states.last().tokens) == tokens_sum(groups),
        cost_view(states.last().cost) == cost_sum(groups),
    decreases groups.len(),
{
    if groups.len() > 0 {
        let n = groups.len() - 1;
        let front = states.take(n + 1);
        assert forall|i: int| 0 <= i < groups.drop_last().len() implies #[trigger] pushed_totals(front[i], groups.drop_last()[i], front[i + 1]) by {
            assert(pushed_totals(states[i], groups[i], states[i + 1]));
        }
        law_projection_sums_groups(front, groups.drop_last());
        assert(pushed_totals(states[n], groups[n], states[n + 1]));
    }
}

impl Projection {
    /// Totals before any group.
    pub fn new() -> (result: Projection)
        ensures
            result.tokens is None,
            result.cost is None,
            result.accepted == 0,
            result.tokens_known == 0,
            result.priced == 0,
            result.previous_complete is None,
            result.segments@ == seq![0u64, 0u64],
    {
        Projection { tokens: None, cost: None, accepted: 0, tokens_known: 0, priced: 0, previous_complete: None, segments: [0, 0] }
    }

    /// Adds one timestamp group and returns its cumulative point with the boundaries it
    /// opens. On success the point carries the new running totals: known token and cost
    /// subtotals (absent until some value is known) and whether every accepted
    /// observation so far is known. A counter that leaves its range, or a cost that is
    /// not integer text within `i128`, refuses the group.
    pub fn push(&mut self, group: UsageGroup) -> (result: Result<(Point, Vec<BoundaryKind>), ReadError>)
        requires
            old(self).segments@[0] < u64::MAX,
            old(self).segments@[1] < u64::MAX,
        ensures
            ({
                let complete = group_complete(group);
                let previous = old(self).previous_complete;
                &&& final(self).previous_complete == Some([complete[0], complete[1]])
                &&& final(self).segments@[0] == old(self).segments@[0] + (if segment_changes(previous, complete, 0) { 1int } else { 0 })
                &&& final(self).segments@[1] == old(self).segments@[1] + (if segment_changes(previous, complete, 1) { 1int } else { 0 })
                &&& match result {
                    Ok((point, kinds)) => {
                        let tokens = match group.tokens {
                            Some(t) => Some(match old(self).tokens { Some(s) => s + t, None => t as int }),
                            None => match old(self).tokens { Some(s) => Some(s as int), None => None },
                        };
                        let cost = match group.cost {
                            Some(c) => Some(match old(self).cost { Some(s) => s + parsed_i128(c@).unwrap(), None => parsed_i128(c@).unwrap() as int }),
                            None => match old(self).cost { Some(s) => Some(s as int), None => None },
                        };
                        &&& kinds@ == group_boundaries(previous, complete)
                        &&& final(self).accepted == old(self).accepted + group.accepted
                        &&& final(self).tokens_known == old(self).tokens_known + group.tokens_known
                        &&& final(self).priced == old(self).priced + group.priced
                        &&& match tokens { Some(t) => final(self).tokens == Some(t as i64), None => final(self).tokens is None }
                        &&& match cost { Some(c) => final(self).cost == Some(c as i128), None => final(self).cost is None }
                        &&& point.time == group.time
                        &&& point.cumulative_total_tokens.known_tokens matches Some(text) ==> final(self).tokens matches Some(t) && text@ == decimal(t as int)
                        &&& point.cumulative_total_tokens.known_tokens is Some == final(self).tokens is Some
                        &&& point.cumulative_total_tokens.complete == (final(self).tokens_known == final(self).accepted)
                        &&& point.cumulative_estimated_cost.known_subtotal matches Some(text) ==> final(self).cost matches Some(c) && text@ == decimal(c as int)
                        &&& point.cumulative_estimated_cost.known_subtotal is Some == final(self).cost is Some
                        &&& point.cumulative_estimated_cost.complete == (final(self).priced == final(self).accepted)
                        &&& !point.tokens_connect_from_previous
                        &&& !point.cost_connect_from_previous
                        &&& point.segments@[0] == (if complete[0] { Some(final(self).segments@[0]) } else { None })
                        &&& point.segments@[1] == (if complete[1] { Some(final(self).segments@[1]) } else { None })
                    },
                    Err(e) => {
                        &&& e == ReadError::Storage
                        &&& {
                            ||| old(self).accepted + group.accepted > u64::MAX
                            ||| old(self).tokens_known + group.tokens_known > u64::MAX
                            ||| old(self).priced + group.priced > u64::MAX
                            ||| (group.tokens matches Some(t) && old(self).tokens matches Some(s) && !(i64::MIN <= s + t <= i64::MAX))
                            ||| (group.cost matches Some(c) && parsed_i128(c@) is None)
                            ||| (group.cost matches Some(c) && parsed_i128(c@) matches Some(v) && old(self).cost matches Some(s) && !(i128::MIN <= s + v <= i128::MAX))
                        }
                    },
                }
            }),
            result is Ok ==> pushed_totals(*old(self), group, *final(self)),
            result is Err <==> {
                // Refused exactly when a total leaves its range or the cost text does not parse.
                ||| old(self).accepted + group.accepted > u64::MAX
                ||| old(self).tokens_known + group.tokens_known > u64::MAX
                ||| old(self).priced + group.priced > u64::MAX
                ||| (group.tokens matches Some(t) && old(self).tokens matches Some(s) && !(i64::MIN <= s + t <= i64::MAX))
                ||| (group.cost matches Some(c) && parsed_i128(c@) is None)
                ||| (group.cost matches Some(c) && parsed_i128(c@) matches Some(v) && old(self).cost matches Some(s) && !(i128::MIN <= s + v <= i128::MAX))
            },
    {
        let complete = [group.tokens_known == group.accepted, group.priced == group.accepted];
        let ghost complete_seq = group_complete(group);
        assert(complete@ =~= complete_seq);
        let ghost previous = self.previous_complete;
        let mut boundaries: Vec<BoundaryKind> = Vec::new();
        if self.previous_complete.is_none() {
            boundaries.push(BoundaryKind::ObservationStart);
        }
        let previous_tokens = match self.previous_complete {
            Some(value) => Some(value[0]),
            None => None,
        };
        if previous_tokens != Some(complete[0]) {
            self.segments.set(0, self.segments[0] + 1);
            let kind = if complete[0] { BoundaryKind::TokensResumed } else { BoundaryKind::MissingTokens };
            if previous_tokens.is_some() || !complete[0] {
                boundaries.push(kind);
            }
        }
        let previous_cost = match self.previous_complete {
            Some(value) => Some(value[1]),
            None => None,
        };
        if previous_cost != Some(complete[1]) {
            self.segments.set(1, self.segments[1] + 1);
            let kind = if complete[1] { BoundaryKind::PricedUsageResumed } else { BoundaryKind::UnpricedUsage };
            if previous_cost.is_some() || !complete[1] {
                boundaries.push(kind);
            }
        }
        assert(boundaries@ =~= group_boundaries(previous, complete_seq));
        self.previous_complete = Some(complete);
        self.accepted = match self.accepted.checked_add(group.accepted) {
            Some(v) => v,
            None => return Err(ReadError::Storage),
        };
        self.tokens_known = match self.tokens_known.checked_add(group.tokens_known) {
            Some(v) => v,
            None => return Err(ReadError::Storage),
        };
        self.priced = match self.priced.checked_add(group.priced) {
            Some(v) => v,
            None => return Err(ReadError::Storage),
        };
        if let Some(tokens) = group.tokens {
            let base = match self.tokens {
                Some(s) => s,
                None => 0,
            };
            self.tokens = match base.checked_add(tokens) {
                Some(v) => Some(v),
                None => return Err(ReadError::Storage),
            };
        }
        if let Some(cost) = &group.cost {
            let amount = match parse_i128(cost.as_str()) {
                Some(v) => v,
                None => return Err(ReadError::Storage),
            };
            let base = match self.cost {
                Some(s) => s,
                None => 0,
            };
            self.cost = match base.checked_add(amount) {
                Some(v) => Some(v),
                None => return Err(ReadError::Storage),
            };
        }
        let point = Point {
            time: group.time,
            cumulative_total_tokens: Category {
                known_tokens: match self.tokens {
                    Some(v) => Some(i128_text(v as i128)),
                    None => None,
                },
                complete: self.tokens_known == self.accepted,
            },
            cumulative_estimated_cost: EstimatedCost {
                known_subtotal: match self.cost {
                    Some(v) => Some(i128_text(v)),
                    None => None,
                },
                complete: self.priced == self.accepted,
            },
            tokens_connect_from_previous: false,
            cost_connect_from_previous: false,
            segments: [
                if complete[0] { Some(self.segments[0]) } else { None },
                if complete[1] { Some(self.segments[1]) } else { None },
            ],
        };
        Ok((point, boundaries))
    }
}

// ------------------------------------------------------------------ downsampling

/// The points and boundaries of one time bin.
#[derive(Debug)]
pub struct Bin {
    pub first: Option<Point>,
    pub last: Option<Point>,
    pub boundary: Option<Boundary>,
}

/// Cumulative nonnegative series have their extrema at the endpoints. Each time bin
/// retains its first and last point, bounded boundary summaries and the series'
/// continuity identifiers.
#[derive(Debug)]
pub struct Downsample {
    pub start: Time,
    pub end: Time,
    pub bins: Vec<Bin>,
}

/// The bin of an instant: its offset from the start scaled to the bin count (the
/// quotient truncated toward zero, then taken as a `usize`), at most the last bin.
pub open spec fn bin_of(start: Time, end: Time, time: Time, count: int) -> int {
    let span = time_nanos(end) - time_nanos(start);
    let width = if span > 1 { span } else { 1 };
    let raw = (trunc_div((time_nanos(time) - time_nanos(start)) * count, width) as usize) as int;
    if raw < count - 1 { raw } else { count - 1 }
}

/// The boundary kinds after adding new ones in order, each at most once.
pub open spec fn merged_kinds(existing: Seq<BoundaryKind>, added: Seq<BoundaryKind>) -> Seq<BoundaryKind>
    decreases added.len(),
{
    if added.len() == 0 {
        existing
    } else {
        let before = merged_kinds(existing, added.drop_last());
        if before.contains(added.last()) { before } else { before.push(added.last()) }
    }
}

/// A bin after one more point with the boundary kinds it opens.
pub open spec fn bin_pushed(old_bin: Bin, new_bin: Bin, index: int, point: Point, kinds: Seq<BoundaryKind>) -> bool {
    &&& new_bin.first == if old_bin.first is None { Some(point) } else { old_bin.first }
    &&& new_bin.last == Some(point)
    &&& if kinds.len() == 0 {
        new_bin.boundary == old_bin.boundary
    } else {
        new_bin.boundary matches Some(b) && (match old_bin.boundary {
            Some(a) => b.bin_index == a.bin_index && b.first_time == a.first_time && b.count == a.count + 1
                && b.kinds@ == merged_kinds(a.kinds@, kinds),
            None => b.bin_index == index && b.first_time == point.time && b.count == 1
                && b.kinds@ == merged_kinds(Seq::empty(), kinds),
        }) && b.last_time == point.time && b.overloaded == (b.count > 1)
    }
}

fn copy_text(value: &Option<String>) -> (result: Option<String>)
    ensures
        result == *value,
{
    match value {
        Some(v) => Some(v.clone()),
        None => None,
    }
}

/// An exact copy of a point.
pub fn copy_point(point: &Point) -> (result: Point)
    ensures
        result == *point,
{
    Point {
        time: point.time,
        cumulative_total_tokens: Category {
            known_tokens: copy_text(&point.cumulative_total_tokens.known_tokens),
            complete: point.cumulative_total_tokens.complete,
        },
        cumulative_estimated_cost: EstimatedCost {
            known_subtotal: copy_text(&point.cumulative_estimated_cost.known_subtotal),
            complete: point.cumulative_estimated_cost.complete,
        },
        tokens_connect_from_previous: point.tokens_connect_from_previous,
        cost_connect_from_previous: point.cost_connect_from_previous,
        segments: point.segments,
    }
}

fn merge_kinds(kinds: &mut Vec<BoundaryKind>, added: &Vec<BoundaryKind>)
    ensures
        final(kinds)@ == merged_kinds(old(kinds)@, added@),
{
    let ghost existing = kinds@;
    let mut i: usize = 0;
    while i < added.len()
        invariant
            0 <= i <= added@.len(),
            kinds@ == merged_kinds(existing, added@.take(i as int)),
        decreases added@.len() - i,
    {
        assert(added@.take(i + 1).drop_last() =~= added@.take(i as int));
        let kind = added[i];
        let mut present = false;
        let mut j: usize = 0;
        while j < kinds.len()
            invariant
                0 <= j <= kinds@.len(),
                present == exists|k: int| 0 <= k < j && kinds@[k] == kind,
            decreases kinds@.len() - j,
        {
            if kinds[j] == kind {
                present = true;
            }
            j = j + 1;
        }
        assert(present == kinds@.contains(kind));
        if !present {
            kinds.push(kind);
        }
        i = i + 1;
    }
    assert(added@.take(added@.len() as int) =~= added@);
}

impl Downsample {
    /// Half the point budget of empty bins over `[start, end]`.
    pub fn new(start: Time, end: Time, budget: usize) -> (result: Downsample)
        ensures
            result.start == start,
            result.end == end,
            result.bins@.len() == budget / 2,
            forall|i: int| 0 <= i < result.bins@.len() ==> #[trigger] result.bins@[i].first is None
                && result.bins@[i].last is None && result.bins@[i].boundary is None,
    {
        let mut bins: Vec<Bin> = Vec::new();
        let count = budget / 2;
        let mut i: usize = 0;
        while i < count
            invariant
                0 <= i <= count,
                bins@.len() == i,
                forall|k: int| 0 <= k < i ==> #[trigger] bins@[k].first is None && bins@[k].last is None
                    && bins@[k].boundary is None,
            decreases count - i,
        {
            bins.push(Bin { first: None, last: None, boundary: None });
            i = i + 1;
        }
        Downsample { start, end, bins }
    }

    /// The bin an instant falls in.
    pub fn index(&self, time: Time) -> (result: usize)
        requires
            0 < self.bins@.len() < 0x1_0000_0000,
        ensures
            result == bin_of(self.start, self.end, time, self.bins@.len() as int),
            result < self.bins@.len(),
    {
        let count = self.bins.len();
        let span = self.end.nanos_since_epoch() - self.start.nanos_since_epoch();
        let width: i128 = if span > 1 { span } else { 1 };
        let offset = time.nanos_since_epoch() - self.start.nanos_since_epoch();
        assert(-0x4000_0000_0000_0000_0000_0000 < offset < 0x4000_0000_0000_0000_0000_0000);
        assert(-0x4000_0000_0000_0000_0000_0000_0000_0000 < offset * count < 0x4000_0000_0000_0000_0000_0000_0000_0000) by (nonlinear_arith)
            requires
                -0x4000_0000_0000_0000_0000_0000 < offset < 0x4000_0000_0000_0000_0000_0000,
                0 < count < 0x1_0000_0000;
        let scaled = offset * (count as i128);
        let quotient = scaled / width;
        assert(quotient == trunc_div(scaled as int, width as int));
        let raw = #[verifier::truncate] (quotient as usize);
        if raw < count - 1 { raw } else { count - 1 }
    }

    /// Adds a point and the boundary kinds it opens to its bin.
    pub fn push(&mut self, point: Point, kinds: Vec<BoundaryKind>)
        requires
            0 < old(self).bins@.len() < 0x1_0000_0000,
            forall|i: int| 0 <= i < old(self).bins@.len() ==> ((#[trigger] old(self).bins@[i]).boundary matches Some(b)
                ==> b.count < u64::MAX),
        ensures
            final(self).start == old(self).start,
            final(self).end == old(self).end,
            final(self).bins@.len() == old(self).bins@.len(),
            ({
                let index = bin_of(old(self).start, old(self).end, point.time, old(self).bins@.len() as int);
                &&& bin_pushed(old(self).bins@[index], final(self).bins@[index], index, point, kinds@)
                &&& forall|i: int| 0 <= i < final(self).bins@.len() && i != index ==> #[trigger] final(self).bins@[i] == old(self).bins@[i]
            }),
    {
        let index = self.index(point.time);
        let mut bin = Bin { first: None, last: None, boundary: None };
        self.bins.set_and_swap(index, &mut bin);
        let ghost old_bin = bin;
        if kinds.len() > 0 {
            let mut boundary = match bin.boundary {
                Some(b) => b,
                None => Boundary {
                    bin_index: index,
                    first_time: point.time,
                    last_time: point.time,
                    count: 0,
                    kinds: Vec::new(),
                    overloaded: false,
                },
            };
            assert(boundary.count < u64::MAX);
            boundary.last_time = point.time;
            boundary.count = boundary.count + 1;
            boundary.overloaded = boundary.count > 1;
            merge_kinds(&mut boundary.kinds, &kinds);
            bin.boundary = Some(boundary);
        }
        if bin.first.is_none() {
            bin.first = Some(copy_point(&point));
        }
        bin.last = Some(point);
        self.bins.set(index, bin);
    }
}

/// A retained point, joined to the previous retained point of each series when
/// nothing blocks it and both belong to the same complete segment.
pub open spec fn joined(previous: Option<Point>, point: Point, blocked: bool) -> Point {
    let joins = |series: int| !blocked && point.segments@[series] is Some && previous is Some
        && previous.unwrap().segments@[series] == point.segments@[series];
    Point { tokens_connect_from_previous: joins(0), cost_connect_from_previous: joins(1), ..point }
}

/// The last point so far, if any.
pub open spec fn last_of(points: Seq<Point>) -> Option<Point> {
    if points.len() > 0 { Some(points.last()) } else { None }
}

/// The retained points, the boundaries and whether the last retained bin was
/// overloaded, after the given bins. Empty bins keep the previous bin's barrier.
pub open spec fn finished(bins: Seq<Bin>) -> (Seq<Point>, Seq<Boundary>, bool)
    decreases bins.len(),
{
    if bins.len() == 0 {
        (Seq::empty(), Seq::empty(), false)
    } else {
        let (points, boundaries, previous_overloaded) = finished(bins.drop_last());
        let bin = bins.last();
        match bin.first {
            None => (points, boundaries, previous_overloaded),
            Some(first) => {
                let overloaded = bin.boundary matches Some(b) && b.overloaded;
                let p0 = joined(last_of(points), first, overloaded || previous_overloaded);
                let with_first = points.push(p0);
                let all = match bin.last {
                    Some(last) => if last.time == first.time {
                        with_first
                    } else {
                        with_first.push(joined(Some(p0), last, overloaded))
                    },
                    None => with_first,
                };
                let bounds = match bin.boundary {
                    Some(b) => boundaries.push(b),
                    None => boundaries,
                };
                (all, bounds, overloaded)
            },
        }
    }
}

fn reverse_bins(bins: Vec<Bin>) -> (result: Vec<Bin>)
    ensures
        result@.len() == bins@.len(),
        forall|t: int| 0 <= t < result@.len() ==> #[trigger] result@[t] == bins@[bins@.len() - 1 - t],
{
    let ghost all = bins@;
    let mut reversed: Vec<Bin> = Vec::new();
    let mut rest = bins;
    while rest.len() > 0
        invariant
            rest@.len() + reversed@.len() == all.len(),
            rest@ == all.take(rest@.len() as int),
            forall|t: int| 0 <= t < reversed@.len() ==> #[trigger] reversed@[t] == all[all.len() - 1 - t],
        decreases rest@.len(),
    {
        let item = rest.pop().unwrap();
        reversed.push(item);
    }
    reversed
}

fn join(previous: Option<&Point>, point: Point, blocked: bool) -> (result: Point)
    ensures
        result == joined(match previous { Some(p) => Some(*p), None => None }, point, blocked),
{
    let joins_tokens = !blocked && point.segments[0].is_some() && match previous {
        Some(p) => p.segments[0] == point.segments[0],
        None => false,
    };
    let joins_cost = !blocked && point.segments[1].is_some() && match previous {
        Some(p) => p.segments[1] == point.segments[1],
        None => false,
    };
    Point { tokens_connect_from_previous: joins_tokens, cost_connect_from_previous: joins_cost, ..point }
}

impl Downsample {
    /// The retained points in time order, with their continuity flags, and the
    /// boundaries of the bins that have any.
    pub fn finish(self) -> (result: (Vec<Point>, Vec<Boundary>))
        ensures
            result.0@ == finished(self.bins@).0,
            result.1@ == finished(self.bins@).1,
    {
        let ghost all = self.bins@;
        let n = self.bins.len();
        let mut reversed = reverse_bins(self.bins);
        let mut points: Vec<Point> = Vec::new();
        let mut boundaries: Vec<Boundary> = Vec::new();
        let mut previous_overloaded = false;
        let mut i: usize = 0;
        assert(all.take(0) =~= Seq::<Bin>::empty());
        while i < n
            invariant
                n == all.len(),
                0 <= i <= n,
                reversed@.len() == n - i,
                forall|t: int| 0 <= t < reversed@.len() ==> #[trigger] reversed@[t] == all[all.len() - 1 - t],
                finished(all.take(i as int)) == (points@, boundaries@, previous_overloaded),
            decreases n - i,
        {
            let bin = reversed.pop().unwrap();
            assert(bin == all[i as int]);
            assert(all.take(i + 1).drop_last() =~= all.take(i as int));
            assert(all.take(i + 1).last() == bin);
            let Bin { first, last, boundary } = bin;
            if let Some(first) = first {
                let overloaded = match &boundary {
                    Some(b) => b.overloaded,
                    None => false,
                };
                let first_time = first.time;
                let p0 = join(points.last(), first, overloaded || previous_overloaded);
                points.push(p0);
                if let Some(last) = last {
                    if last.time != first_time {
                        let p1 = join(Some(&points[points.len() - 1]), last, overloaded);
                        points.push(p1);
                    }
                }
                if let Some(b) = boundary {
                    boundaries.push(b);
                }
                previous_overloaded = overloaded;
            }
            i = i + 1;
        }
        assert(all.take(n as int) =~= all);
        (points, boundaries)
    }
}

} // verus!
