//! Turns grouped by the combination of a turn's model and its reasoning effort.
//!
//! A turn is one `turn_id` within one session. Every turn is attributed to the
//! bin of its first accepted observation in the range and contributes all of its
//! tokens and cost there, so the per-bin counts, tokens and amounts each add up
//! exactly to the series totals a reader sees beside the chart.
use crate::aggregates::{decimal_of, text_of, Category, EstimatedCost};
use crate::dashboard::{TurnPoint, TurnSeries};
use crate::storage::dashboard::models::{clamp_i128, clamp_i64, combined, saturating_i128, sum_gt};
use crate::text::{lemma_text_lt_irreflexive, lemma_text_lt_transitive, text_less, text_lt};
use crate::text::{decimal, i128_text, push_str};
use vstd::prelude::*;

verus! {

/// Named series kept before the remainder folds into one `other:` series.
pub const MAX_SERIES: usize = 7;
/// Enough resolution to see a working pattern without an unreadable bar width.
pub const MAX_BINS: u32 = 96;

/// The turns, observations, tokens and cost of one bin of one series.
#[derive(Clone, Copy, Debug, PartialEq, Eq, Structural)]
pub struct Point {
    pub turns: u64,
    pub accepted: i64,
    pub total: Option<i64>,
    pub known: i64,
    pub stored: i128,
    pub priced: i64,
}

/// Two optional token sums added, clamped; one absent side leaves the other.
pub fn add(left: Option<i64>, right: Option<i64>) -> (result: Option<i64>)
    ensures
        result == combined(left, right),
{
    match (left, right) {
        (Some(a), Some(b)) => Some(match a.checked_add(b) {
            Some(v) => v,
            None => if b > 0 { i64::MAX } else { i64::MIN },
        }),
        (Some(a), None) => Some(a),
        (None, b) => b,
    }
}

/// The counters of two points can be added.
pub open spec fn addable(a: Point, b: Point) -> bool {
    &&& a.turns + b.turns <= u64::MAX
    &&& i64::MIN <= a.accepted + b.accepted <= i64::MAX
    &&& i64::MIN <= a.known + b.known <= i64::MAX
    &&& i64::MIN <= a.priced + b.priced <= i64::MAX
}

/// The sum of two points.
pub open spec fn point_sum(a: Point, b: Point) -> Point {
    Point {
        turns: (a.turns + b.turns) as u64,
        accepted: (a.accepted + b.accepted) as i64,
        total: combined(a.total, b.total),
        known: (a.known + b.known) as i64,
        stored: clamp_i128(a.stored + b.stored),
        priced: (a.priced + b.priced) as i64,
    }
}

/// A point as a chart bin.
pub open spec fn point_shown(p: Point, index: u32, t: TurnPoint) -> bool {
    &&& t.index == index
    &&& t.turns == p.turns
    &&& text_of(t.tokens.known_tokens) == decimal_of(match p.total { Some(n) => Some(n as int), None => None })
    &&& t.tokens.complete == (p.accepted > 0 && p.known == p.accepted)
    &&& text_of(t.estimated_cost.known_subtotal) == if p.priced > 0 { Some(decimal(p.stored as int)) } else { None::<Seq<char>> }
    &&& t.estimated_cost.complete == (p.accepted > 0 && p.accepted == p.priced)
}

impl Point {
    /// An empty bin.
    pub fn new() -> (result: Point)
        ensures
            result == (Point { turns: 0, accepted: 0, total: None, known: 0, stored: 0, priced: 0 }),
    {
        Point { turns: 0, accepted: 0, total: None, known: 0, stored: 0, priced: 0 }
    }

    /// Adds another bin's counters.
    pub fn merge(&mut self, other: &Point)
        requires
            addable(*old(self), *other),
        ensures
            *final(self) == point_sum(*old(self), *other),
    {
        self.turns = self.turns + other.turns;
        self.accepted = self.accepted + other.accepted;
        self.total = self::add(self.total, other.total);
        self.known = self.known + other.known;
        self.stored = saturating_i128(self.stored, other.stored);
        self.priced = self.priced + other.priced;
    }

    /// The bin as shown on the chart.
    pub fn finish(&self, index: u32) -> (result: TurnPoint)
        ensures
            point_shown(*self, index, result),
    {
        TurnPoint {
            index,
            turns: self.turns,
            tokens: Category::from_sum(self.total, self.known, self.accepted),
            estimated_cost: EstimatedCost {
                known_subtotal: if self.priced > 0 { Some(i128_text(self.stored)) } else { None },
                complete: self.accepted > 0 && self.accepted == self.priced,
            },
        }
    }
}

/// Bins in strictly increasing order.
pub open spec fn ordered(points: Seq<(u32, Point)>) -> bool {
    forall|i: int, j: int| 0 <= i < j < points.len() ==> points[i].0 < points[j].0
}

/// The bins as a map from bin index to counters.
pub open spec fn bins(points: Seq<(u32, Point)>) -> Map<u32, Point>
    decreases points.len(),
{
    if points.len() == 0 {
        Map::empty()
    } else {
        bins(points.drop_last()).insert(points.last().0, points.last().1)
    }
}

/// The bins after adding other bins one at a time: a shared index adds counters.
#[verifier::opaque]
pub open spec fn bins_merged(base: Map<u32, Point>, added: Seq<(u32, Point)>) -> Map<u32, Point>
    decreases added.len(),
{
    if added.len() == 0 {
        base
    } else {
        let before = bins_merged(base, added.drop_last());
        let (index, point) = added.last();
        before.insert(index, if before.contains_key(index) { point_sum(before[index], point) } else { point })
    }
}

/// The series of one combination of model and reasoning effort.
#[derive(Clone, Debug)]
pub struct Series {
    pub model: Option<String>,
    pub effort: Option<String>,
    pub totals: Point,
    /// None once a fold makes the distinct set unrecoverable.
    pub sessions: Option<u64>,
    pub points: Vec<(u32, Point)>,
}

proof fn lemma_bins_ordered_last(points: Seq<(u32, Point)>)
    requires
        ordered(points),
    ensures
        forall|k: u32| bins(points).contains_key(k) ==> exists|i: int| 0 <= i < points.len() && points[i].0 == k,
        forall|i: int| 0 <= i < points.len() ==> bins(points).contains_key(#[trigger] points[i].0)
            && bins(points)[points[i].0] == points[i].1,
    decreases points.len(),
{
    if points.len() > 0 {
        let rest = points.drop_last();
        let last = points.last();
        assert(ordered(rest));
        lemma_bins_ordered_last(rest);
        assert forall|k: u32| bins(points).contains_key(k) implies exists|i: int| 0 <= i < points.len() && points[i].0 == k by {
            if k == last.0 {
                assert(points[points.len() - 1].0 == k);
            } else {
                assert(bins(rest).contains_key(k));
                let i = choose|i: int| 0 <= i < rest.len() && rest[i].0 == k;
                assert(points[i].0 == k);
            }
        }
        assert forall|i: int| 0 <= i < points.len() implies bins(points).contains_key(#[trigger] points[i].0)
            && bins(points)[points[i].0] == points[i].1 by {
            if i < points.len() - 1 {
                assert(points[i] == rest[i]);
                assert(points[i].0 < points[points.len() - 1].0);
                assert(bins(rest).contains_key(rest[i].0));
            }
        }
    }
}

fn find_bin(points: &Vec<(u32, Point)>, index: u32) -> (result: usize)
    requires
        ordered(points@),
    ensures
        result <= points@.len(),
        forall|i: int| 0 <= i < result ==> points@[i].0 < index,
        forall|i: int| result <= i < points@.len() ==> points@[i].0 >= index,
{
    let mut i: usize = 0;
    while i < points.len() && points[i].0 < index
        invariant
            0 <= i <= points@.len(),
            ordered(points@),
            forall|j: int| 0 <= j < i ==> points@[j].0 < index,
        decreases points@.len() - i,
    {
        i = i + 1;
    }
    if i < points.len() {
        assert forall|j: int| i <= j < points@.len() implies points@[j].0 >= index by {
            if j > i {
                assert(points@[i as int].0 < points@[j].0);
            }
        }
    }
    i
}

proof fn lemma_bins_insert_at(points: Seq<(u32, Point)>, at: int, index: u32, point: Point)
    requires
        ordered(points),
        0 <= at <= points.len(),
        forall|i: int| 0 <= i < at ==> points[i].0 < index,
        forall|i: int| at <= i < points.len() ==> points[i].0 > index,
    ensures
        ordered(points.insert(at, (index, point))),
        bins(points.insert(at, (index, point))) == bins(points).insert(index, point),
{
    let inserted = points.insert(at, (index, point));
    lemma_bins_ordered_last(points);
    lemma_bins_ordered_last(inserted);
    assert(bins(inserted) =~= bins(points).insert(index, point)) by {
        assert forall|k: u32| #[trigger] bins(inserted).contains_key(k) <==> bins(points).insert(index, point).contains_key(k) by {
            if bins(inserted).contains_key(k) {
                let i = choose|i: int| 0 <= i < inserted.len() && inserted[i].0 == k;
                if i < at {
                    assert(inserted[i] == points[i]);
                } else if i > at {
                    assert(inserted[i] == points[i - 1]);
                }
            }
            if bins(points).contains_key(k) {
                let i = choose|i: int| 0 <= i < points.len() && points[i].0 == k;
                if i < at {
                    assert(inserted[i] == points[i]);
                } else {
                    assert(inserted[i + 1] == points[i]);
                }
            }
            if k == index {
                assert(inserted[at].0 == index);
            }
        }
        assert forall|k: u32| #[trigger] bins(inserted).contains_key(k) implies bins(inserted)[k] == bins(points).insert(index, point)[k] by {
            let i = choose|i: int| 0 <= i < inserted.len() && inserted[i].0 == k;
            if i < at {
                assert(inserted[i] == points[i]);
            } else if i > at {
                assert(inserted[i] == points[i - 1]);
            }
        }
    }
}

proof fn lemma_bins_update_at(points: Seq<(u32, Point)>, at: int, point: Point)
    requires
        ordered(points),
        0 <= at < points.len(),
    ensures
        ordered(points.update(at, (points[at].0, point))),
        bins(points.update(at, (points[at].0, point))) == bins(points).insert(points[at].0, point),
{
    let updated = points.update(at, (points[at].0, point));
    lemma_bins_ordered_last(points);
    assert(ordered(updated)) by {
        assert forall|i: int, j: int| 0 <= i < j < updated.len() implies updated[i].0 < updated[j].0 by {
            assert(points[i].0 < points[j].0);
        }
    }
    lemma_bins_ordered_last(updated);
    assert(bins(updated) =~= bins(points).insert(points[at].0, point)) by {
        assert forall|k: u32| #[trigger] bins(updated).contains_key(k) <==> bins(points).insert(points[at].0, point).contains_key(k) by {
            if bins(updated).contains_key(k) {
                let i = choose|i: int| 0 <= i < updated.len() && updated[i].0 == k;
                assert(updated[i].0 == points[i].0);
            }
            if bins(points).contains_key(k) {
                let i = choose|i: int| 0 <= i < points.len() && points[i].0 == k;
                assert(updated[i].0 == points[i].0);
            }
        }
        assert forall|k: u32| #[trigger] bins(updated).contains_key(k) implies bins(updated)[k] == bins(points).insert(points[at].0, point)[k] by {
            let i = choose|i: int| 0 <= i < updated.len() && updated[i].0 == k;
            if i != at {
                assert(points[i].0 != points[at].0) by {
                    if i < at { assert(points[i].0 < points[at].0); } else { assert(points[at].0 < points[i].0); }
                }
            }
        }
    }
}

/// Every pair of bins with one index can be added.
pub open spec fn bins_addable(base: Map<u32, Point>, added: Seq<(u32, Point)>) -> bool {
    forall|j: int| 0 <= j < added.len() ==> {
        let before = bins_merged(base, added.take(j));
        before.contains_key(#[trigger] added[j].0) ==> addable(before[added[j].0], added[j].1)
    }
}

fn merge_one(points: &mut Vec<(u32, Point)>, index: u32, point: Point)
    requires
        ordered(old(points)@),
        bins(old(points)@).contains_key(index) ==> addable(bins(old(points)@)[index], point),
    ensures
        ordered(final(points)@),
        bins(final(points)@) == bins(old(points)@).insert(index,
            if bins(old(points)@).contains_key(index) { point_sum(bins(old(points)@)[index], point) } else { point }),
{
    let at = find_bin(points, index);
    proof {
        lemma_bins_ordered_last(points@);
    }
    if at < points.len() && points[at].0 == index {
        let mut existing = points[at].1;
        assert(bins(points@)[index] == existing);
        existing.merge(&point);
        proof {
            lemma_bins_update_at(points@, at as int, existing);
        }
        points.set(at, (index, existing));
    } else {
        proof {
            assert forall|i: int| at <= i < points@.len() implies points@[i].0 > index by {
                if i > at {
                    assert(points@[at as int].0 < points@[i].0);
                }
            }
            assert(!bins(points@).contains_key(index)) by {
                if bins(points@).contains_key(index) {
                    let i = choose|i: int| 0 <= i < points@.len() && points@[i].0 == index;
                }
            }
            lemma_bins_insert_at(points@, at as int, index, point);
        }
        points.insert(at, (index, point));
    }
}

/// Adds other bins into ordered bins, keeping them ordered.
pub fn merge_bins(points: &mut Vec<(u32, Point)>, added: &Vec<(u32, Point)>)
    requires
        ordered(old(points)@),
        bins_addable(bins(old(points)@), added@),
    ensures
        ordered(final(points)@),
        bins(final(points)@) == bins_merged(bins(old(points)@), added@),
{
    let ghost base = bins(points@);
    let mut j: usize = 0;
    assert(bins_merged(base, added@.take(0)) == base) by {
        reveal(bins_merged);
        assert(added@.take(0) =~= Seq::<(u32, Point)>::empty());
    }
    while j < added.len()
        invariant
            0 <= j <= added@.len(),
            ordered(points@),
            bins(points@) == bins_merged(base, added@.take(j as int)),
            bins_addable(base, added@),
        decreases added@.len() - j,
    {
        let (index, point) = added[j];
        let ghost before = bins(points@);
        assert(before.contains_key(index) ==> addable(before[index], point));
        merge_one(points, index, point);
        assert(bins(points@) == bins_merged(base, added@.take(j + 1))) by {
            reveal(bins_merged);
            assert(added@.take(j + 1).drop_last() =~= added@.take(j as int));
            assert(added@.take(j + 1).last() == added@[j as int]);
        }
        j = j + 1;
    }
    assert(added@.take(added@.len() as int) =~= added@);
}

/// A combination's own identity, so an unattributed model and an unrecorded
/// reasoning effort never merge into a named one.
pub open spec fn key_text(model: Option<Seq<char>>, effort: Option<Seq<char>>) -> Seq<char> {
    (match model {
        Some(m) => "model:"@ + m,
        None => "unknown:"@,
    }) + "|effort:"@ + (match effort {
        Some(e) => e,
        None => Seq::empty(),
    })
}

/// A combination's readable label.
pub open spec fn label_text(model: Option<Seq<char>>, effort: Option<Seq<char>>) -> Seq<char> {
    (match model {
        Some(m) => m,
        None => "Unknown model"@,
    }) + " \u{b7} "@ + (match effort {
        Some(e) => e,
        None => "reasoning unavailable"@,
    })
}

/// The view of an optional text slice.
pub open spec fn str_view(value: Option<&str>) -> Option<Seq<char>> {
    match value {
        Some(v) => Some(v@),
        None => None,
    }
}

/// The identity of a combination of model and reasoning effort.
pub fn key(model: Option<&str>, effort: Option<&str>) -> (result: String)
    ensures
        result@ == key_text(str_view(model), str_view(effort)),
{
    let mut text = String::new();
    match model {
        Some(m) => {
            push_str(&mut text, "model:");
            push_str(&mut text, m);
        },
        None => push_str(&mut text, "unknown:"),
    }
    push_str(&mut text, "|effort:");
    if let Some(e) = effort {
        push_str(&mut text, e);
    }
    proof {
        reveal_strlit("");
    }
    assert(text@ =~= key_text(str_view(model), str_view(effort)));
    text
}

/// The label of a combination of model and reasoning effort.
pub fn label(model: Option<&str>, effort: Option<&str>) -> (result: String)
    ensures
        result@ == label_text(str_view(model), str_view(effort)),
{
    let mut text = String::new();
    match model {
        Some(m) => push_str(&mut text, m),
        None => push_str(&mut text, "Unknown model"),
    }
    push_str(&mut text, " \u{b7} ");
    match effort {
        Some(e) => push_str(&mut text, e),
        None => push_str(&mut text, "reasoning unavailable"),
    }
    assert(text@ =~= label_text(str_view(model), str_view(effort)));
    text
}

/// The published bins of a series, in bin order.
pub open spec fn bins_shown(points: Seq<(u32, Point)>, shown: Seq<TurnPoint>) -> bool {
    &&& shown.len() == points.len()
    &&& forall|i: int| 0 <= i < points.len() ==> point_shown(points[i].1, points[i].0, #[trigger] shown[i])
}

/// What finishing a series publishes, apart from its key, label and kind.
pub open spec fn series_shown(s: Series, t: TurnSeries) -> bool {
    &&& t.model == s.model && t.effort == s.effort
    &&& t.turns == s.totals.turns
    &&& t.accepted_observations == (if s.totals.accepted > 0 { s.totals.accepted as u64 } else { 0 })
    &&& t.observed_sessions == s.sessions
    &&& text_of(t.tokens.known_tokens) == decimal_of(match s.totals.total { Some(n) => Some(n as int), None => None })
    &&& t.tokens.complete == (s.totals.accepted > 0 && s.totals.known == s.totals.accepted)
    &&& text_of(t.estimated_cost.known_subtotal) == if s.totals.priced > 0 {
        Some(decimal(s.totals.stored as int))
    } else {
        None::<Seq<char>>
    }
    &&& t.estimated_cost.complete == (s.totals.accepted > 0 && s.totals.accepted == s.totals.priced)
    &&& bins_shown(s.points@, t.points@)
}

impl Series {
    /// Folds another combination into this one. Two combinations can share a
    /// session, so their distinct counts cannot be added; the folded series
    /// reports no count rather than a wrong one.
    pub fn merge(&mut self, other: Series)
        requires
            addable(old(self).totals, other.totals),
            ordered(old(self).points@),
            bins_addable(bins(old(self).points@), other.points@),
        ensures
            final(self).model == old(self).model,
            final(self).effort == old(self).effort,
            final(self).totals == point_sum(old(self).totals, other.totals),
            final(self).sessions is None,
            ordered(final(self).points@),
            bins(final(self).points@) == bins_merged(bins(old(self).points@), other.points@),
    {
        self.totals.merge(&other.totals);
        self.sessions = None;
        merge_bins(&mut self.points, &other.points);
    }

    /// The published series.
    pub fn finish(self, key: String, label: String, kind: &'static str) -> (result: TurnSeries)
        ensures
            result.key == key && result.label == label && result.kind == kind,
            series_shown(self, result),
    {
        let summary = self.totals.finish(0);
        let mut points: Vec<TurnPoint> = Vec::new();
        let mut i: usize = 0;
        while i < self.points.len()
            invariant
                0 <= i <= self.points@.len(),
                points@.len() == i,
                forall|k: int| 0 <= k < i ==> point_shown(self.points@[k].1, self.points@[k].0, #[trigger] points@[k]),
            decreases self.points@.len() - i,
        {
            let (index, point) = self.points[i];
            points.push(point.finish(index));
            i = i + 1;
        }
        TurnSeries {
            key,
            label,
            model: self.model,
            effort: self.effort,
            kind,
            turns: self.totals.turns,
            accepted_observations: if self.totals.accepted > 0 { self.totals.accepted as u64 } else { 0 },
            observed_sessions: self.sessions,
            tokens: summary.tokens,
            estimated_cost: summary.estimated_cost,
            points,
        }
    }
}


// ------------------------------------------------------------------ binning, ranking and folding

/// The number of bins a query gets: between one and `MAX_BINS`.
pub open spec fn bin_count_of(bins: u32) -> u32 {
    if bins < 1 { 1 } else if bins > MAX_BINS { MAX_BINS } else { bins }
}

/// The number of bins a query gets.
pub fn bin_count(bins: u32) -> (result: u32)
    ensures
        result == bin_count_of(bins),
{
    if bins < 1 { 1 } else if bins > MAX_BINS { MAX_BINS } else { bins }
}

/// The bin of a turn first observed at `observed` nanoseconds: its offset from the
/// start scaled to the bin count, less one nanosecond so an instant on a bin's end
/// belongs to that bin, floored, taken as an `i64`, then kept within the bins.
pub open spec fn turn_bin_of(start: i128, end: i128, bins: u32, observed: i64) -> u32 {
    let width = if end - start > 1 { end - start } else { 1 };
    let raw = (((observed - start) * bins - 1) / width) as i64;
    if raw < 0 { 0 } else if raw > bins - 1 { (bins - 1) as u32 } else { raw as u32 }
}

proof fn lemma_negative_floor(m: int, w: int)
    requires
        m > 0,
        w > 0,
    ensures
        -((m + w - 1) / w) == (-m) / w,
        0 <= (m + w - 1) / w,
{
    vstd::arithmetic::div_mod::lemma_fundamental_div_mod(m + w - 1, w);
    let t = (m + w - 1) / w;
    let r = (m + w - 1) % w;
    assert(0 <= r < w);
    assert(-m == (-t) * w + (w - 1 - r)) by (nonlinear_arith)
        requires
            m + w - 1 == w * t + r,
    ;
    vstd::arithmetic::div_mod::lemma_fundamental_div_mod_converse(-m, w, -t, w - 1 - r);
    vstd::arithmetic::div_mod::lemma_div_pos_is_pos(m + w - 1, w);
}

/// The bin of a turn first observed at `observed` nanoseconds since the epoch.
pub fn turn_bin(start: i128, end: i128, bins: u32, observed: i64) -> (result: u32)
    requires
        1 <= bins <= MAX_BINS,
        -0x1_0000_0000_0000_0000_0000_0000 < start < 0x1_0000_0000_0000_0000_0000_0000,
        -0x1_0000_0000_0000_0000_0000_0000 < end < 0x1_0000_0000_0000_0000_0000_0000,
    ensures
        result == turn_bin_of(start, end, bins, observed),
{
    let width: i128 = if end - start > 1 { end - start } else { 1 };
    let offset = observed as i128 - start;
    assert(-0x100_0000_0000_0000_0000_0000_0000 < offset * bins < 0x100_0000_0000_0000_0000_0000_0000) by (nonlinear_arith)
        requires
            -0x2_0000_0000_0000_0000_0000_0000 < offset < 0x2_0000_0000_0000_0000_0000_0000,
            1 <= bins <= 96;
    let scaled = offset * (bins as i128) - 1;
    let quotient: i128 = if scaled >= 0 {
        scaled / width
    } else {
        let magnitude = -scaled;
        proof {
            lemma_negative_floor(magnitude as int, width as int);
        }
        -((magnitude + width - 1) / width)
    };
    let raw = #[verifier::truncate] (quotient as i64);
    if raw < 0 {
        0
    } else if raw > (bins - 1) as i64 {
        bins - 1
    } else {
        raw as u32
    }
}

/// Whether one series ranks before another: more turns first, then more tokens, then
/// the smaller key.
pub open spec fn series_before(a: (String, Series), b: (String, Series)) -> bool {
    if a.1.totals.turns != b.1.totals.turns {
        a.1.totals.turns > b.1.totals.turns
    } else if a.1.totals.total != b.1.totals.total {
        sum_gt(a.1.totals.total, b.1.totals.total)
    } else {
        text_lt(a.0@, b.0@)
    }
}

/// A ranked sequence after placing one more series before the first it ranks before.
pub open spec fn series_insert(ranked: Seq<(String, Series)>, row: (String, Series)) -> Seq<(String, Series)>
    decreases ranked.len(),
{
    if ranked.len() == 0 {
        seq![row]
    } else if series_before(row, ranked[0]) {
        seq![row] + ranked
    } else {
        seq![ranked[0]] + series_insert(ranked.drop_first(), row)
    }
}

/// Series in rank order: each placed, in turn, before the first series it ranks before.
pub open spec fn series_ranked(rows: Seq<(String, Series)>) -> Seq<(String, Series)>
    decreases rows.len(),
{
    if rows.len() == 0 {
        Seq::empty()
    } else {
        series_insert(series_ranked(rows.drop_last()), rows.last())
    }
}

/// The position a series takes: before the first series it ranks before.
pub open spec fn series_position(ranked: Seq<(String, Series)>, row: (String, Series)) -> int
    decreases ranked.len(),
{
    if ranked.len() == 0 || series_before(row, ranked[0]) {
        0
    } else {
        1 + series_position(ranked.drop_first(), row)
    }
}

proof fn lemma_series_insert(ranked: Seq<(String, Series)>, row: (String, Series))
    ensures
        0 <= series_position(ranked, row) <= ranked.len(),
        series_insert(ranked, row) == ranked.insert(series_position(ranked, row), row),
        forall|k: int| 0 <= k < series_position(ranked, row) ==> !series_before(row, #[trigger] ranked[k]),
        series_position(ranked, row) < ranked.len() ==> series_before(row, ranked[series_position(ranked, row)]),
    decreases ranked.len(),
{
    if ranked.len() == 0 {
        assert(seq![row] =~= ranked.insert(0, row));
    } else if series_before(row, ranked[0]) {
        assert(seq![row] + ranked =~= ranked.insert(0, row));
    } else {
        let tail = ranked.drop_first();
        lemma_series_insert(tail, row);
        let p = series_position(tail, row);
        assert(seq![ranked[0]] + tail.insert(p, row) =~= ranked.insert(p + 1, row));
        assert forall|k: int| 0 <= k < p + 1 implies !series_before(row, #[trigger] ranked[k]) by {
            if k > 0 {
                assert(ranked[k] == tail[k - 1]);
            }
        }
        if p < tail.len() {
            assert(ranked[p + 1] == tail[p]);
        }
    }
}

fn series_less(a: &(String, Series), b: &(String, Series)) -> (result: bool)
    ensures
        result == series_before(*a, *b),
{
    if a.1.totals.turns != b.1.totals.turns {
        a.1.totals.turns > b.1.totals.turns
    } else if a.1.totals.total != b.1.totals.total {
        match (a.1.totals.total, b.1.totals.total) {
            (Some(x), Some(y)) => x > y,
            (Some(_), None) => true,
            _ => false,
        }
    } else {
        text_less(a.0.as_str(), b.0.as_str())
    }
}

fn reverse_series(rows: Vec<(String, Series)>) -> (result: Vec<(String, Series)>)
    ensures
        result@ == rows@.reverse(),
{
    let ghost all = rows@;
    let mut reversed: Vec<(String, Series)> = Vec::new();
    let mut rest = rows;
    while rest.len() > 0
        invariant
            rest@.len() + reversed@.len() == all.len(),
            rest@ == all.take(rest@.len() as int),
            forall|t: int| 0 <= t < reversed@.len() ==> #[trigger] reversed@[t] == all[all.len() - 1 - t],
        decreases rest@.len(),
    {
        let item = rest.pop().unwrap();
        reversed.push(item);
    }
    assert(reversed@ =~= all.reverse());
    reversed
}

/// Orders series for the turn panel (see `series_before`).
pub fn rank_series(rows: Vec<(String, Series)>) -> (result: Vec<(String, Series)>)
    ensures
        result@ == series_ranked(rows@),
{
    let ghost all = rows@;
    let mut pending = reverse_series(rows);
    let mut out: Vec<(String, Series)> = Vec::new();
    let mut i: usize = 0;
    let n = pending.len();
    while pending.len() > 0
        invariant
            n == all.len(),
            pending@.len() + i == n,
            forall|t: int| 0 <= t < pending@.len() ==> #[trigger] pending@[t] == all[n - 1 - t],
            out@ == series_ranked(all.take(i as int)),
        decreases pending@.len(),
    {
        let row = pending.pop().unwrap();
        assert(row == all[i as int]);
        assert(all.take(i + 1).drop_last() =~= all.take(i as int));
        let ghost before = out@;
        proof {
            lemma_series_insert(before, row);
        }
        let mut at: usize = 0;
        while at < out.len() && !series_less(&row, &out[at])
            invariant
                out@ == before,
                0 <= at <= out@.len(),
                forall|k: int| 0 <= k < at ==> !series_before(row, #[trigger] before[k]),
            decreases out@.len() - at,
        {
            at = at + 1;
        }
        assert(at == series_position(before, row)) by {
            if at < series_position(before, row) {
                assert(series_before(row, before[at as int]));
            } else if at > series_position(before, row) {
                let p = series_position(before, row);
                assert(!series_before(row, before[p]));
            }
        }
        out.insert(at, row);
        i = i + 1;
    }
    assert(all.take(n as int) =~= all);
    out
}

/// The totals of series folded, in order, into an empty series.
pub open spec fn folded_totals(rows: Seq<(String, Series)>) -> Point
    decreases rows.len(),
{
    if rows.len() == 0 {
        Point { turns: 0, accepted: 0, total: None, known: 0, stored: 0, priced: 0 }
    } else {
        point_sum(folded_totals(rows.drop_last()), rows.last().1.totals)
    }
}

/// The bins of series folded, in order, into an empty series.
pub open spec fn folded_bins(rows: Seq<(String, Series)>) -> Map<u32, Point>
    decreases rows.len(),
{
    if rows.len() == 0 {
        Map::empty()
    } else {
        bins_merged(folded_bins(rows.drop_last()), rows.last().1.points@)
    }
}

/// Folding the series in order never leaves the counters' ranges.
pub open spec fn fold_fits(rows: Seq<(String, Series)>) -> bool {
    forall|j: int| 0 <= j < rows.len() ==> {
        &&& addable(folded_totals(rows.take(j)), (#[trigger] rows[j]).1.totals)
        &&& bins_addable(folded_bins(rows.take(j)), rows[j].1.points@)
    }
}

/// The folded remainder's label.
pub open spec fn other_series_label(folded: nat) -> Seq<char> {
    "Other combinations ("@ + decimal(folded as int) + ")"@
}

/// How many ranked series keep their own row.
pub open spec fn kept_series(n: nat) -> int {
    if n < MAX_SERIES { n as int } else { MAX_SERIES as int }
}

/// The published turn series: the first seven ranked combinations under their own
/// labels, the rest folded into one `other:` series labelled with their number, and
/// the usage attributing neither model nor effort last, apart.
pub fn turn_series(ranked: Vec<(String, Series)>, unattributed: Option<Series>) -> (result: Vec<TurnSeries>)
    requires
        fold_fits(ranked@.skip(MAX_SERIES as int)),
    ensures
        result@.len() == kept_series(ranked@.len()) + (if ranked@.len() > MAX_SERIES { 1int } else { 0 })
            + (if unattributed is Some { 1int } else { 0 }),
        forall|j: int| 0 <= j < kept_series(ranked@.len()) ==> {
            &&& (#[trigger] result@[j]).key@ == ranked@[j].0@
            &&& result@[j].label@ == label_text(text_of(ranked@[j].1.model), text_of(ranked@[j].1.effort))
            &&& result@[j].kind == "combination"
            &&& series_shown(ranked@[j].1, result@[j])
        },
        ranked@.len() > MAX_SERIES ==> {
            &&& result@[MAX_SERIES as int].key@ == "other:"@
            &&& result@[MAX_SERIES as int].label@ == other_series_label((ranked@.len() - MAX_SERIES) as nat)
            &&& result@[MAX_SERIES as int].kind == "other"
            &&& exists|s: Series| {
                &&& #[trigger] series_shown(s, result@[MAX_SERIES as int])
                &&& s.model is None && s.effort is None && s.sessions is None
                &&& s.totals == folded_totals(ranked@.skip(MAX_SERIES as int))
                &&& ordered(s.points@) && bins(s.points@) == folded_bins(ranked@.skip(MAX_SERIES as int))
            }
        },
        unattributed matches Some(u) ==> {
            &&& result@.last().key@ == key_text(None, None)
            &&& result@.last().label@ == label_text(None, None)
            &&& result@.last().kind == "unattributed"
            &&& series_shown(u, result@.last())
        },
{
    let ghost all = ranked@;
    let n = ranked.len();
    let mut pending = reverse_series(ranked);
    let mut published: Vec<TurnSeries> = Vec::new();
    let mut other = Series { model: None, effort: None, totals: Point::new(), sessions: None, points: Vec::new() };
    let mut folded_count: usize = 0;
    let mut k: usize = 0;
    while pending.len() > 0
        invariant
            n == all.len(),
            fold_fits(all.skip(MAX_SERIES as int)),
            pending@.len() + k == n,
            forall|t: int| 0 <= t < pending@.len() ==> #[trigger] pending@[t] == all[n - 1 - t],
            published@.len() == if k < MAX_SERIES { k as int } else { MAX_SERIES as int },
            forall|j: int| 0 <= j < published@.len() ==> {
                &&& (#[trigger] published@[j]).key@ == all[j].0@
                &&& published@[j].label@ == label_text(text_of(all[j].1.model), text_of(all[j].1.effort))
                &&& published@[j].kind == "combination"
                &&& series_shown(all[j].1, published@[j])
            },
            folded_count == if k < MAX_SERIES { 0int } else { k - MAX_SERIES },
            other.model is None && other.effort is None && other.sessions is None,
            ordered(other.points@),
            other.totals == folded_totals(all.skip(MAX_SERIES as int).take(if k < MAX_SERIES { 0int } else { k - MAX_SERIES })),
            bins(other.points@) == folded_bins(all.skip(MAX_SERIES as int).take(if k < MAX_SERIES { 0int } else { k - MAX_SERIES })),
        decreases pending@.len(),
    {
        let (id, entry) = pending.pop().unwrap();
        assert((id, entry) == all[k as int]);
        if k < MAX_SERIES {
            let model = match &entry.model {
                Some(m) => Some(m.as_str()),
                None => None,
            };
            let effort = match &entry.effort {
                Some(e) => Some(e.as_str()),
                None => None,
            };
            let name = label(model, effort);
            published.push(entry.finish(id, name, "combination"));
        } else {
            let ghost rest = all.skip(MAX_SERIES as int);
            let ghost j = k - MAX_SERIES;
            proof {
                assert(rest[j] == all[k as int]);
                assert(rest.take(j + 1).drop_last() =~= rest.take(j));
            }
            other.merge(entry);
            folded_count = folded_count + 1;
        }
        k = k + 1;
    }
    if folded_count > 0 {
        let mut name = String::new();
        push_str(&mut name, "Other combinations (");
        crate::text::push_u128(&mut name, folded_count as u128);
        crate::text::push_char(&mut name, ')');
        proof {
            reveal_strlit("Other combinations (");
            reveal_strlit(")");
            assert(name@ =~= other_series_label(folded_count as nat));
            assert(all.skip(MAX_SERIES as int).take(n - MAX_SERIES) =~= all.skip(MAX_SERIES as int));
        }
        let ghost s = other;
        published.push(other.finish(crate::text::owned("other:"), name, "other"));
        assert(series_shown(s, published@[MAX_SERIES as int]));
        assert(s.totals == folded_totals(all.skip(MAX_SERIES as int)));
        assert(bins(s.points@) == folded_bins(all.skip(MAX_SERIES as int)));
        assert(exists|w: Series| {
            &&& #[trigger] series_shown(w, published@[MAX_SERIES as int])
            &&& w.model is None && w.effort is None && w.sessions is None
            &&& w.totals == folded_totals(all.skip(MAX_SERIES as int))
            &&& ordered(w.points@) && bins(w.points@) == folded_bins(all.skip(MAX_SERIES as int))
        });
    }
    let ghost before = published@;
    if let Some(u) = unattributed {
        published.push(u.finish(key(None, None), label(None, None), "unattributed"));
    }
    assert(forall|j: int| 0 <= j < before.len() ==> published@[j] == before[j]);
    assert(k == n);
    published
}


/// The token total a series is weighed by; an unknown total weighs less than any known
/// one.
spec fn series_tokens(s: Series) -> int {
    match s.totals.total {
        Some(t) => t as int,
        None => i64::MIN - 1,
    }
}

/// Whether a series weighs at least as much as another: more turns, then more tokens.
spec fn series_weighs_at_least(a: Series, b: Series) -> bool {
    a.totals.turns > b.totals.turns || (a.totals.turns == b.totals.turns && series_tokens(a) >= series_tokens(b))
}

proof fn lemma_series_weighs(a: (String, Series), b: (String, Series))
    ensures
        series_before(a, b) ==> series_weighs_at_least(a.1, b.1),
        !series_before(a, b) ==> series_weighs_at_least(b.1, a.1),
        series_weighs_at_least(a.1, b.1) && series_weighs_at_least(b.1, a.1) ==> (series_before(a, b) == text_lt(
            a.0@,
            b.0@,
        )),
{
}

/// Series in non-increasing weight, series of equal weight by key.
spec fn series_sorted(s: Seq<(String, Series)>) -> bool {
    forall|i: int, j: int| 0 <= i < j < s.len() ==> #[trigger] series_weighs_at_least(s[i].1, s[j].1)
        && (series_weighs_at_least(s[j].1, s[i].1) ==> !text_lt(s[j].0@, s[i].0@))
}

proof fn lemma_series_ranked_sorted(rows: Seq<(String, Series)>)
    ensures
        series_sorted(series_ranked(rows)),
        series_ranked(rows).len() == rows.len(),
    decreases rows.len(),
{
    if rows.len() > 0 {
        let before = series_ranked(rows.drop_last());
        let row = rows.last();
        lemma_series_ranked_sorted(rows.drop_last());
        lemma_series_insert(before, row);
        let p = series_position(before, row);
        before.insert_ensures(p, row);
        let n = before.insert(p, row);
        assert forall|i: int, j: int| 0 <= i < j < n.len() implies #[trigger] series_weighs_at_least(n[i].1, n[j].1)
            && (series_weighs_at_least(n[j].1, n[i].1) ==> !text_lt(n[j].0@, n[i].0@)) by {
            if j < p {
                assert(series_weighs_at_least(before[i].1, before[j].1));
            } else if j == p {
                lemma_series_weighs(row, before[i]);
            } else if i < p {
                assert(n[j] == before[j - 1]);
                assert(series_weighs_at_least(before[i].1, before[j - 1].1));
            } else if i == p {
                let last = before[j - 1];
                let first = before[p];
                assert(n[j] == last);
                assert(n[i] == row);
                lemma_series_weighs(row, first);
                assert(series_before(row, first));
                if p < j - 1 {
                    assert(series_weighs_at_least(first.1, last.1));
                }
                if series_weighs_at_least(last.1, row.1) {
                    assert(series_weighs_at_least(first.1, row.1));
                    assert(text_lt(row.0@, first.0@));
                    if text_lt(last.0@, row.0@) {
                        lemma_text_lt_transitive(last.0@, row.0@, first.0@);
                        if p == j - 1 {
                            lemma_text_lt_irreflexive(last.0@);
                        } else {
                            assert(series_weighs_at_least(last.1, first.1));
                        }
                    }
                }
            } else {
                assert(n[i] == before[i - 1]);
                assert(n[j] == before[j - 1]);
                assert(series_weighs_at_least(before[i - 1].1, before[j - 1].1));
            }
        }
    }
}

/// Ranking only reorders.
proof fn lemma_ranked_series_permute(rows: Seq<(String, Series)>)
    ensures
        series_ranked(rows).to_multiset() == rows.to_multiset(),
    decreases rows.len(),
{
    broadcast use vstd::seq_lib::to_multiset_build, vstd::seq_lib::to_multiset_insert;

    if rows.len() == 0 {
        assert(series_ranked(rows) =~= rows);
    } else {
        let front = rows.drop_last();
        let before = series_ranked(front);
        lemma_ranked_series_permute(front);
        lemma_series_insert(before, rows.last());
        let p = series_position(before, rows.last());
        assert(before.insert(p, rows.last()).to_multiset() == before.to_multiset().insert(rows.last()));
        assert(front.push(rows.last()) =~= rows);
        assert(front.push(rows.last()).to_multiset() =~= front.to_multiset().insert(rows.last()));
    }
}

/// The turn panel holds exactly the given combinations, busiest first: more turns
/// first; among combinations with as many turns, the larger known token total (one
/// with a known total never follows one without); combinations alike in both follow
/// their keys' order.
pub proof fn law_busier_series_rank_first(rows: Seq<(String, Series)>)
    ensures
        series_ranked(rows).len() == rows.len(),
        series_ranked(rows).to_multiset() == rows.to_multiset(),
        forall|i: int, j: int|
            #![trigger series_ranked(rows)[i], series_ranked(rows)[j]]
            0 <= i < j < rows.len() ==> {
                let (a, b) = (series_ranked(rows)[i].1.totals, series_ranked(rows)[j].1.totals);
                &&& a.turns >= b.turns
                &&& (a.turns == b.turns && b.total is Some) ==> (a.total is Some && a.total.unwrap() >= b.total.unwrap())
                &&& (a.turns == b.turns && a.total == b.total) ==> !text_lt(series_ranked(rows)[j].0@, series_ranked(rows)[i].0@)
            },
{
    lemma_series_ranked_sorted(rows);
    lemma_ranked_series_permute(rows);
    assert forall|i: int, j: int|
        #![trigger series_ranked(rows)[i], series_ranked(rows)[j]]
        0 <= i < j < rows.len() implies {
            let (a, b) = (series_ranked(rows)[i].1.totals, series_ranked(rows)[j].1.totals);
            &&& a.turns >= b.turns
            &&& (a.turns == b.turns && b.total is Some) ==> (a.total is Some && a.total.unwrap() >= b.total.unwrap())
            &&& (a.turns == b.turns && a.total == b.total) ==> !text_lt(series_ranked(rows)[j].0@, series_ranked(rows)[i].0@)
        } by {
        assert(series_weighs_at_least(series_ranked(rows)[i].1, series_ranked(rows)[j].1));
    }
}

} // verus!
