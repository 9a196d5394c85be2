//! Bounded chart projection; exact native values survive until the drawing layer.
use crate::aggregates;
use crate::storage::dashboard::range_quota::Sample;
use crate::weekly::{self, time_lt, time_nanos, Cost, Estimate, ReadError, Time, Unavailable};
use vstd::prelude::*;

verus! {

pub const MAX_POINTS: u32 = 4096;

/// The chart's time range.
#[derive(Clone, Copy, Debug, PartialEq, Eq, Structural)]
pub enum Range {
    CurrentCycle,
    Last24Hours,
    Last7Days,
    Last30Days,
    All,
}

/// What the breakdown rows are ranked and drawn by.
#[derive(Clone, Copy, Debug, PartialEq, Eq, Structural)]
pub enum BreakdownMetric {
    Tokens,
    Cost,
}

impl Default for BreakdownMetric {
    /// Tokens.
    fn default() -> (result: BreakdownMetric)
        ensures
            result == BreakdownMetric::Tokens,
    {
        BreakdownMetric::Tokens
    }
}

/// A dashboard read.
#[derive(Clone, Copy, Debug)]
pub struct Query {
    pub range: Range,
    pub point_budget: Option<u32>,
    pub breakdown_metric: BreakdownMetric,
}

/// Seconds that a fixed-length range reaches back from `now`.
pub open spec fn range_seconds(range: Range) -> int {
    match range {
        Range::Last24Hours => 86400int,
        Range::Last7Days => 604800int,
        Range::Last30Days => 2592000int,
        _ => 0int,
    }
}

/// The first instant of a range: the cycle's start, the earliest observation,
/// or `now` moved back by the range's length (saturating at the earliest `i64`).
pub open spec fn range_start(range: Range, now: Time, cycle: Option<Time>, earliest: Option<Time>) -> Time {
    match range {
        Range::CurrentCycle => match cycle {
            Some(c) => c,
            None => now,
        },
        Range::All => match earliest {
            Some(e) => e,
            None => now,
        },
        _ => Time {
            seconds: if now.seconds - range_seconds(range) < i64::MIN {
                i64::MIN
            } else {
                (now.seconds - range_seconds(range)) as i64
            },
            nanos: now.nanos,
        },
    }
}

impl Query {
    /// The number of chart bins: an eighth of the point budget (4096 by default),
    /// which must lie between 8 and 4096.
    pub fn validate(&self) -> (result: Result<usize, weekly::ReadError>)
        ensures
            ({
                let budget: int = match self.point_budget {
                    Some(b) => b as int,
                    None => MAX_POINTS as int,
                };
                &&& (8 <= budget <= MAX_POINTS) ==> result == Ok::<usize, weekly::ReadError>((budget / 8) as usize)
                &&& !(8 <= budget <= MAX_POINTS) ==> result == Err::<usize, weekly::ReadError>(weekly::ReadError::InvalidQuery)
            }),
    {
        let budget = match self.point_budget {
            Some(b) => b,
            None => MAX_POINTS,
        };
        if budget < 8 || budget > MAX_POINTS {
            return Err(weekly::ReadError::InvalidQuery);
        }
        Ok((budget / 8) as usize)
    }

    /// The first instant of the selected range.
    pub fn start(&self, now: Time, cycle: Option<Time>, earliest: Option<Time>) -> (result: Time)
        ensures
            result == range_start(self.range, now, cycle, earliest),
    {
        let seconds: i64 = match self.range {
            Range::CurrentCycle => {
                return match cycle {
                    Some(c) => c,
                    None => now,
                };
            },
            Range::All => {
                return match earliest {
                    Some(e) => e,
                    None => now,
                };
            },
            Range::Last24Hours => 86400,
            Range::Last7Days => 7 * 86400,
            Range::Last30Days => 30 * 86400,
        };
        let shifted = if now.seconds < i64::MIN + seconds {
            i64::MIN
        } else {
            now.seconds - seconds
        };
        Time { seconds: shifted, nanos: now.nanos }
    }
}

/// One quota interval with its tokens, hypotheses and category costs.
#[derive(Clone, Debug)]
pub struct QuotaInterval {
    pub start: Time,
    pub end: Time,
    pub consumed_percentage_points: String,
    pub tokens: aggregates::Tokens,
    pub hypotheses: Vec<QuotaHypothesis>,
    pub categories: CategoryCosts,
}

/// Estimated token cost split by token category, each observation at its own
/// model's preserved price version. Exact integer trillionths of USD; every
/// amount is absent when the scope has no usable priced split.
#[derive(Clone, Debug)]
pub struct CategoryCosts {
    pub input: Option<String>,
    pub cached_input: Option<String>,
    pub cache_writes: Option<String>,
    pub output: Option<String>,
    pub reason: Option<&'static str>,
}

impl Default for CategoryCosts {
    /// Every amount and the reason absent.
    fn default() -> (result: CategoryCosts)
        ensures
            result.input is None,
            result.cached_input is None,
            result.cache_writes is None,
            result.output is None,
            result.reason is None,
    {
        CategoryCosts { input: None, cached_input: None, cache_writes: None, output: None, reason: None }
    }
}

/// One composition of the optional token categories, priced.
#[derive(Clone, Debug)]
pub struct QuotaHypothesis {
    /// Optional bits: cached input=1, cache writes=2, reasoning=4.
    pub mask: u8,
    pub writes_included: bool,
    pub tokens: Option<String>,
    /// Exact integer trillionths of USD; absent if any usage is unpriced.
    pub estimated_usd: Option<String>,
    pub token_reason: Option<&'static str>,
    pub price_reason: Option<&'static str>,
}

/// Quota intervals of the selected range.
#[derive(Clone, Debug)]
pub struct QuotaAnalysis {
    pub intervals: Vec<QuotaInterval>,
    pub total_intervals: u64,
}

/// Tokens, cost and sessions of a scope.
#[derive(Clone, Debug)]
pub struct UsageSummary {
    pub tokens: aggregates::Tokens,
    pub estimated_cost: aggregates::EstimatedCost,
    pub observed_sessions: u64,
}

/// One time bin of local usage.
#[derive(Clone, Debug)]
pub struct UsagePoint {
    pub index: u32,
    pub start: Time,
    pub end: Time,
    pub summary: UsageSummary,
}

/// Local usage of the selected range, binned.
#[derive(Clone, Debug)]
pub struct LocalUsage {
    pub start: Time,
    pub end: Time,
    pub bin_count: u32,
    pub summary: UsageSummary,
    pub points: Vec<UsagePoint>,
    pub untimed_observations: u64,
    pub coverage_note: &'static str,
}

/// One ranked breakdown row.
#[derive(Clone, Debug)]
pub struct Breakdown {
    pub key: String,
    pub label: String,
    pub kind: &'static str,
    pub tokens: aggregates::Category,
    pub estimated_cost: aggregates::EstimatedCost,
}

/// One model's direct usage in the selected range, with its estimated token
/// cost split into input, cached input, cache-write and output amounts.
#[derive(Clone, Debug)]
pub struct ModelCost {
    pub key: String,
    pub label: String,
    pub kind: &'static str,
    pub tokens: aggregates::Tokens,
    pub estimated_cost: aggregates::EstimatedCost,
    pub categories: CategoryCosts,
    pub accepted_observations: u64,
    /// Absent when folding made the distinct set unrecoverable.
    pub observed_sessions: Option<u64>,
}

/// One time bin of one model-and-reasoning combination.
#[derive(Clone, Debug)]
pub struct TurnPoint {
    pub index: u32,
    pub turns: u64,
    pub tokens: aggregates::Category,
    pub estimated_cost: aggregates::EstimatedCost,
}

/// One combination of a model and the reasoning effort its turns ran at.
#[derive(Clone, Debug)]
pub struct TurnSeries {
    pub key: String,
    pub label: String,
    pub model: Option<String>,
    /// The source's own wording, never a normalized or invented level.
    pub effort: Option<String>,
    /// `combination`, the folded `other` remainder, or `unattributed`.
    pub kind: &'static str,
    pub turns: u64,
    pub accepted_observations: u64,
    /// Absent when folding made the distinct set unrecoverable.
    pub observed_sessions: Option<u64>,
    pub tokens: aggregates::Category,
    pub estimated_cost: aggregates::EstimatedCost,
    pub points: Vec<TurnPoint>,
}

/// Turns of the selected range, by model and reasoning effort.
#[derive(Clone, Debug)]
pub struct TurnActivity {
    pub start: Time,
    pub end: Time,
    pub bin_count: u32,
    pub total_turns: u64,
    /// Distinct combinations before the remainder folds into one series.
    pub combinations: u64,
    /// Turns standing for an observation whose record carried no turn identity.
    pub turns_without_identity: u64,
    pub series: Vec<TurnSeries>,
    pub coverage_note: &'static str,
}

/// Model and project breakdowns of the selected range.
#[derive(Clone, Debug)]
pub struct Breakdowns {
    pub metric: BreakdownMetric,
    pub models: Vec<Breakdown>,
    pub projects: Vec<Breakdown>,
    /// Ranked by estimated cost; remaining models fold into one `other:` row.
    pub model_costs: Vec<ModelCost>,
    /// The same split across every model in the range, including `other:`.
    pub category_totals: CategoryCosts,
}

/// One retained quota chart point.
#[derive(Clone, Debug)]
pub struct Point {
    pub time: Time,
    pub segment_id: Option<String>,
    pub weekly_used_percent: Option<String>,
    pub cumulative_estimated_cost: Option<Cost>,
    pub effective_usd_per_percent: Option<String>,
    pub unavailable_reason: Option<Unavailable>,
    pub connect_from_previous: bool,
}

/// Why the quota chart starts a new segment.
#[derive(Clone, Copy, Debug, PartialEq, Eq, Structural)]
pub enum BoundaryKind {
    ObservationStart,
    Reset,
    AmbiguousObservation,
    UnpricedUsage,
    PricedUsageResumed,
}

/// Boundaries falling into one chart bin.
#[derive(Clone, Debug)]
pub struct Boundary {
    pub bin_index: usize,
    pub first_time: Time,
    pub last_time: Time,
    pub count: u64,
    pub kinds: Vec<BoundaryKind>,
    /// Multiple boundaries cannot be represented as one continuous chart span.
    pub overloaded: bool,
}

/// The bounded quota chart.
#[derive(Clone, Debug)]
pub struct Chart {
    pub range: Range,
    pub start: Time,
    pub end: Time,
    pub bin_count: usize,
    pub returned_observation_count: usize,
    pub source_observation_count: u64,
    pub points: Vec<Point>,
    pub boundaries: Vec<Boundary>,
    pub coverage_note: &'static str,
}

/// The dashboard.
#[derive(Debug)]
pub struct Response {
    pub evaluated_at: Time,
    pub weekly: weekly::Response,
    pub global: aggregates::Summary,
    pub token_scope: &'static str,
    pub chart: Chart,
    pub local_usage: LocalUsage,
    pub breakdowns: Breakdowns,
    pub turn_activity: TurnActivity,
    pub quota_analysis: QuotaAnalysis,
}

// ------------------------------------------------------------------ downsampling

/// Whether `bigdecimal` reads the text as a decimal number.
pub uninterp spec fn decimal_parses(text: Seq<char>) -> bool;

/// Whether `bigdecimal` orders the first text's value strictly below the second's;
/// false when either text is not a decimal number.
pub uninterp spec fn decimal_less(a: Seq<char>, b: Seq<char>) -> bool;

/// Calls `<bigdecimal::BigDecimal as FromStr>::from_str` and reports whether it accepted
/// the text. Trusted: the answer depends on the text alone.
#[verifier::external_body]
fn parses(text: &str) -> (result: bool)
    ensures
        result == decimal_parses(text@),
{
    text.parse::<bigdecimal::BigDecimal>().is_ok()
}

/// Compares two decimal texts with `<bigdecimal::BigDecimal as PartialOrd>::lt`, each read
/// with `from_str`; false when either is not a decimal number. Trusted: the answer depends
/// on the two texts alone. (`a > b` is `b < a` by the contract of `PartialOrd`.)
#[verifier::external_body]
fn less(a: &str, b: &str) -> (result: bool)
    ensures
        result == decimal_less(a@, b@),
{
    match (a.parse::<bigdecimal::BigDecimal>(), b.parse::<bigdecimal::BigDecimal>()) {
        (Ok(x), Ok(y)) => x < y,
        _ => false,
    }
}

/// One chart bin: its first and last point, the points holding each series' least and
/// greatest value (quota used, cumulative cost, USD per percent; minimum before
/// maximum), and its boundary summary.
#[derive(Debug)]
pub struct Bin {
    pub first: Option<Point>,
    pub last: Option<Point>,
    pub extrema: Vec<Option<Point>>,
    pub boundary: Option<Boundary>,
}

/// Bounded quota chart sampling over `[start, end]` that keeps actual observations only:
/// per bin its endpoints and the observations carrying each series' extrema.
#[derive(Debug)]
pub struct Downsample {
    pub range: Range,
    pub start: Time,
    pub end: Time,
    pub bins: Vec<Bin>,
    pub source_count: u64,
}

/// The text of a series of a point: quota used, cumulative cost, USD per percent.
pub open spec fn series_view(point: Point, series: int) -> Option<Seq<char>> {
    let text = if series == 0 {
        point.weekly_used_percent
    } else if series == 1 {
        match point.cumulative_estimated_cost {
            Some(cost) => cost.known_subtotal,
            None => None,
        }
    } else {
        point.effective_usd_per_percent
    };
    match text {
        Some(t) => Some(t@),
        None => None,
    }
}

/// An extremum slot after a point is offered to it: the point takes the slot when its
/// series value is a decimal number and the slot is empty, or when the value is strictly
/// below (for a minimum) or above (for a maximum) the held point's.
pub open spec fn offered(slot: Option<Point>, point: Point, series: int, maximum: bool) -> Option<Point> {
    match series_view(point, series) {
        None => slot,
        Some(v) => if !decimal_parses(v) {
            slot
        } else {
            match slot {
                None => Some(point),
                Some(held) => match series_view(held, series) {
                    Some(h) => if (if maximum { decimal_less(h, v) } else { decimal_less(v, h) }) {
                        Some(point)
                    } else {
                        slot
                    },
                    None => slot,
                },
            }
        },
    }
}

/// Whether an instant lies inside `[start, end]`.
pub open spec fn in_window(start: Time, end: Time, time: Time) -> bool {
    !time_lt(time, start) && !time_lt(end, time)
}

/// The bin of an instant: its offset from the start (at least zero) scaled to the bin
/// count, taken as a `usize`, at most the last bin.
pub open spec fn chart_bin_of(start: Time, end: Time, time: Time, count: int) -> int {
    let span = time_nanos(end) - time_nanos(start);
    let width = if span > 1 { span } else { 1 };
    let offset = time_nanos(time) - time_nanos(start);
    let clamped = if offset > 0 { offset } else { 0 };
    let raw = ((clamped * count / width) as usize) as int;
    if raw < count - 1 { raw } else { count - 1 }
}

/// A bin after one more point and the boundary it may open.
pub open spec fn chart_bin_pushed(old_bin: Bin, new_bin: Bin, index: int, point: Point, kind: Option<BoundaryKind>) -> bool {
    &&& new_bin.first == if old_bin.first is None { Some(point) } else { old_bin.first }
    &&& new_bin.last == Some(point)
    &&& new_bin.extrema@.len() == 6
    &&& forall|slot: int| 0 <= slot < 6 ==> #[trigger] new_bin.extrema@[slot] == offered(old_bin.extrema@[slot], point, slot / 2, slot % 2 == 1)
    &&& match kind {
        None => new_bin.boundary == old_bin.boundary,
        Some(k) => new_bin.boundary matches Some(b) && (match old_bin.boundary {
            Some(a) => b.bin_index == a.bin_index && b.first_time == a.first_time && b.count == a.count + 1
                && b.kinds@ == (if a.kinds@.contains(k) { a.kinds@ } else { a.kinds@.push(k) }),
            None => b.bin_index == index && b.first_time == point.time && b.count == 1 && b.kinds@ == seq![k],
        }) && b.last_time == point.time && b.overloaded == (b.count > 1),
    }
}

/// An exact copy of a cost.
fn copy_cost(cost: &Cost) -> (result: Cost)
    ensures
        result == *cost,
{
    Cost {
        known_subtotal: match &cost.known_subtotal {
            Some(t) => Some(t.clone()),
            None => None,
        },
        complete: cost.complete,
        accepted_observations: cost.accepted_observations,
    }
}

fn copy_text(value: &Option<String>) -> (result: Option<String>)
    ensures
        result == *value,
{
    match value {
        Some(t) => Some(t.clone()),
        None => None,
    }
}

/// An exact copy of a chart point.
pub fn copy_chart_point(point: &Point) -> (result: Point)
    ensures
        result == *point,
{
    Point {
        time: point.time,
        segment_id: copy_text(&point.segment_id),
        weekly_used_percent: copy_text(&point.weekly_used_percent),
        cumulative_estimated_cost: match &point.cumulative_estimated_cost {
            Some(c) => Some(copy_cost(c)),
            None => None,
        },
        effective_usd_per_percent: copy_text(&point.effective_usd_per_percent),
        unavailable_reason: point.unavailable_reason,
        connect_from_previous: point.connect_from_previous,
    }
}

fn series_value(point: &Point, series: usize) -> (result: Option<&str>)
    requires
        series < 3,
    ensures
        match result {
            Some(s) => series_view(*point, series as int) == Some(s@),
            None => series_view(*point, series as int) is None,
        },
{
    let text = if series == 0 {
        &point.weekly_used_percent
    } else if series == 1 {
        match &point.cumulative_estimated_cost {
            Some(cost) => &cost.known_subtotal,
            None => return None,
        }
    } else {
        &point.effective_usd_per_percent
    };
    match text {
        Some(t) => Some(t.as_str()),
        None => None,
    }
}

fn offer(slot: Option<Point>, point: &Point, series: usize, maximum: bool) -> (result: Option<Point>)
    requires
        series < 3,
    ensures
        result == offered(slot, *point, series as int, maximum),
{
    match series_value(point, series) {
        None => slot,
        Some(v) => {
            if !parses(v) {
                return slot;
            }
            let replace = match &slot {
                None => true,
                Some(held) => match series_value(held, series) {
                    Some(h) => if maximum {
                        less(h, v)
                    } else {
                        less(v, h)
                    },
                    None => false,
                },
            };
            if replace {
                Some(copy_chart_point(point))
            } else {
                slot
            }
        },
    }
}

fn has_kind(kinds: &Vec<BoundaryKind>, kind: BoundaryKind) -> (result: bool)
    ensures
        result == kinds@.contains(kind),
{
    let mut j: usize = 0;
    while j < kinds.len()
        invariant
            0 <= j <= kinds@.len(),
            forall|k: int| 0 <= k < j ==> kinds@[k] != kind,
        decreases kinds@.len() - j,
    {
        if kinds[j] == kind {
            return true;
        }
        j = j + 1;
    }
    false
}

impl Downsample {
    /// Whether every bin has its six extremum slots and there is at least one bin.
    pub open spec fn well_formed(&self) -> bool {
        &&& 0 < self.bins@.len() < 0x1_0000_0000
        &&& forall|i: int| 0 <= i < self.bins@.len() ==> (#[trigger] self.bins@[i]).extrema@.len() == 6
    }

    /// `count` empty bins over `[start, end]`.
    pub fn new(range: Range, start: Time, end: Time, count: usize) -> (result: Downsample)
        ensures
            result.range == range,
            result.start == start,
            result.end == end,
            result.source_count == 0,
            result.bins@.len() == count,
            forall|i: int| 0 <= i < count ==> {
                &&& (#[trigger] result.bins@[i]).first is None
                &&& result.bins@[i].last is None
                &&& result.bins@[i].boundary is None
                &&& result.bins@[i].extrema@ == seq![None::<Point>, None, None, None, None, None]
            },
    {
        let mut bins: Vec<Bin> = Vec::new();
        let mut i: usize = 0;
        while i < count
            invariant
                0 <= i <= count,
                bins@.len() == i,
                forall|k: int| 0 <= k < i ==> {
                    &&& (#[trigger] bins@[k]).first is None
                    &&& bins@[k].last is None
                    &&& bins@[k].boundary is None
                    &&& bins@[k].extrema@ == seq![None::<Point>, None, None, None, None, None]
                },
            decreases count - i,
        {
            let extrema: Vec<Option<Point>> = vec![None, None, None, None, None, None];
            bins.push(Bin { first: None, last: None, extrema, boundary: None });
            i = i + 1;
        }
        Downsample { range, start, end, bins, source_count: 0 }
    }

    fn index(&self, time: Time) -> (result: usize)
        requires
            0 < self.bins@.len() < 0x1_0000_0000,
        ensures
            result == chart_bin_of(self.start, self.end, time, self.bins@.len() as int),
            result < self.bins@.len(),
    {
        let count = self.bins.len();
        let span = self.end.nanos_since_epoch() - self.start.nanos_since_epoch();
        let width: i128 = if span > 1 { span } else { 1 };
        let offset = time.nanos_since_epoch() - self.start.nanos_since_epoch();
        let clamped: i128 = if offset > 0 { offset } else { 0 };
        assert(0 <= clamped < 0x4000_0000_0000_0000_0000_0000);
        assert(0 <= clamped * count < 0x4000_0000_0000_0000_0000_0000_0000_0000) by (nonlinear_arith)
            requires
                0 <= clamped < 0x4000_0000_0000_0000_0000_0000,
                0 < count < 0x1_0000_0000;
        let scaled = clamped * (count as i128);
        let quotient = scaled / width;
        let raw = #[verifier::truncate] (quotient as usize);
        if raw < count - 1 { raw } else { count - 1 }
    }
}

impl Downsample {
    /// Counts a point inside `[start, end]` and files it in its bin: the bin's first and
    /// last point, each extremum slot it improves, and the boundary it opens. Points
    /// outside the window change nothing.
    pub fn push(&mut self, point: Point, boundary: Option<BoundaryKind>)
        requires
            old(self).well_formed(),
            old(self).source_count < u64::MAX,
            forall|i: int| 0 <= i < old(self).bins@.len() ==> ((#[trigger] old(self).bins@[i]).boundary matches Some(b)
                ==> b.count < u64::MAX),
        ensures
            final(self).range == old(self).range,
            final(self).start == old(self).start,
            final(self).end == old(self).end,
            final(self).bins@.len() == old(self).bins@.len(),
            final(self).well_formed(),
            !in_window(old(self).start, old(self).end, point.time) ==> *final(self) == *old(self),
            in_window(old(self).start, old(self).end, point.time) ==> {
                let index = chart_bin_of(old(self).start, old(self).end, point.time, old(self).bins@.len() as int);
                &&& final(self).source_count == old(self).source_count + 1
                &&& chart_bin_pushed(old(self).bins@[index], final(self).bins@[index], index, point, boundary)
                &&& forall|i: int| 0 <= i < final(self).bins@.len() && i != index ==> #[trigger] final(self).bins@[i] == old(self).bins@[i]
            },
    {
        if point.time.before(&self.start) || self.end.before(&point.time) {
            return;
        }
        self.source_count = self.source_count + 1;
        let index = self.index(point.time);
        let mut bin = Bin { first: None, last: None, extrema: Vec::new(), boundary: None };
        self.bins.set_and_swap(index, &mut bin);
        let ghost old_bin = bin;
        if let Some(kind) = boundary {
            let mut summary = match bin.boundary {
                Some(b) => b,
                None => Boundary {
                    bin_index: index,
                    first_time: point.time,
                    last_time: point.time,
                    count: 0,
                    kinds: Vec::new(),
                    overloaded: false,
                },
            };
            summary.last_time = point.time;
            summary.count = summary.count + 1;
            summary.overloaded = summary.count > 1;
            if !has_kind(&summary.kinds, kind) {
                summary.kinds.push(kind);
            }
            bin.boundary = Some(summary);
        }
        if bin.first.is_none() {
            bin.first = Some(copy_chart_point(&point));
        }
        let ghost filed = bin;
        let mut slot_index: usize = 0;
        while slot_index < 6
            invariant
                0 <= slot_index <= 6,
                bin.first == filed.first,
                bin.boundary == filed.boundary,
                old_bin.extrema@.len() == 6,
                bin.extrema@.len() == 6,
                forall|k: int| 0 <= k < slot_index ==> #[trigger] bin.extrema@[k] == offered(old_bin.extrema@[k], point, k / 2, k % 2 == 1),
                forall|k: int| slot_index <= k < 6 ==> #[trigger] bin.extrema@[k] == old_bin.extrema@[k],
            decreases 6 - slot_index,
        {
            let mut slot: Option<Point> = None;
            bin.extrema.set_and_swap(slot_index, &mut slot);
            let updated = offer(slot, &point, slot_index / 2, slot_index % 2 == 1);
            bin.extrema.set(slot_index, updated);
            slot_index = slot_index + 1;
        }
        bin.last = Some(point);
        self.bins.set(index, bin);
    }
}

/// The points a sequence of slots holds, in slot order.
pub open spec fn somes(slots: Seq<Option<Point>>) -> Seq<Point>
    decreases slots.len(),
{
    if slots.len() == 0 {
        Seq::empty()
    } else {
        let before = somes(slots.drop_last());
        match slots.last() {
            Some(p) => before.push(p),
            None => before,
        }
    }
}

/// The point an optional slot holds, as a sequence of at most one.
pub open spec fn held(slot: Option<Point>) -> Seq<Point> {
    match slot {
        Some(p) => seq![p],
        None => Seq::empty(),
    }
}

/// The points a bin retains before ordering: first, last, then the extrema.
pub open spec fn retained(bin: Bin) -> Seq<Point> {
    held(bin.first) + held(bin.last) + somes(bin.extrema@)
}

/// Points in strictly increasing time.
pub open spec fn strictly_increasing(points: Seq<Point>) -> bool {
    forall|i: int, j: int| 0 <= i < j < points.len() ==> time_lt(#[trigger] points[i].time, #[trigger] points[j].time)
}

/// A time-ordered sequence after offering one more point: dropped when a point of the
/// same instant is already there, otherwise placed before the first later point.
pub open spec fn insert_kept(points: Seq<Point>, point: Point) -> Seq<Point>
    decreases points.len(),
{
    if points.len() == 0 {
        seq![point]
    } else if points[0].time == point.time {
        points
    } else if time_lt(point.time, points[0].time) {
        seq![point] + points
    } else {
        seq![points[0]] + insert_kept(points.drop_first(), point)
    }
}

/// The points sorted by time (stably) with later points of an instant already present
/// dropped: one point per instant, the first offered.
pub open spec fn kept(points: Seq<Point>) -> Seq<Point>
    decreases points.len(),
{
    if points.len() == 0 {
        Seq::empty()
    } else {
        insert_kept(kept(points.drop_last()), points.last())
    }
}

/// The view of an optional segment identifier.
pub open spec fn segment_view(segment: Option<String>) -> Option<Seq<char>> {
    match segment {
        Some(t) => Some(t@),
        None => None,
    }
}

/// The chart points after appending a bin's ordered points: each joins the previous
/// chart point when the bin is not overloaded, it is not the first point after an
/// overloaded bin, and both carry the same segment identifier.
pub open spec fn linked(points: Seq<Point>, added: Seq<Point>, overloaded: bool, previous_overloaded: bool) -> Seq<Point>
    decreases added.len(),
{
    if added.len() == 0 {
        points
    } else {
        let before = linked(points, added.drop_last(), overloaded, previous_overloaded);
        let point = added.last();
        let connect = !overloaded && !(added.len() == 1 && previous_overloaded) && point.segment_id is Some
            && before.len() > 0 && segment_view(before.last().segment_id) == segment_view(point.segment_id);
        before.push(Point { connect_from_previous: connect, ..point })
    }
}

/// The chart points, the boundaries and whether the last bin was overloaded, after the
/// given bins.
pub open spec fn chart_finished(bins: Seq<Bin>) -> (Seq<Point>, Seq<Boundary>, bool)
    decreases bins.len(),
{
    if bins.len() == 0 {
        (Seq::empty(), Seq::empty(), false)
    } else {
        let (points, boundaries, previous_overloaded) = chart_finished(bins.drop_last());
        let bin = bins.last();
        let overloaded = bin.boundary matches Some(b) && b.overloaded;
        (
            linked(points, kept(retained(bin)), overloaded, previous_overloaded),
            match bin.boundary {
                Some(b) => boundaries.push(b),
                None => boundaries,
            },
            overloaded,
        )
    }
}

/// Offering a point to a strictly increasing sequence: where it lands, and that the
/// result stays strictly increasing.
proof fn lemma_insert_kept(points: Seq<Point>, point: Point, at: int)
    requires
        strictly_increasing(points),
        0 <= at <= points.len(),
        forall|k: int| 0 <= k < at ==> time_lt(#[trigger] points[k].time, point.time),
        at < points.len() ==> !time_lt(points[at].time, point.time),
    ensures
        insert_kept(points, point) == if at < points.len() && points[at].time == point.time {
            points
        } else {
            points.insert(at, point)
        },
        strictly_increasing(insert_kept(points, point)),
    decreases points.len(),
{
    if points.len() == 0 {
        assert(seq![point] =~= points.insert(0, point));
    } else if points[0].time == point.time {
        if at > 0 {
            assert(time_lt(points[0].time, point.time));
        }
    } else if time_lt(point.time, points[0].time) {
        if at > 0 {
            assert(time_lt(points[0].time, point.time));
        }
        assert(seq![point] + points =~= points.insert(0, point));
    } else {
        if at == 0 {
            assert(!time_lt(points[0].time, point.time));
        }
        let tail = points.drop_first();
        assert forall|k: int| 0 <= k < at - 1 implies time_lt(#[trigger] tail[k].time, point.time) by {
            assert(tail[k] == points[k + 1]);
        }
        assert(strictly_increasing(tail)) by {
            assert forall|i: int, j: int| 0 <= i < j < tail.len() implies time_lt(#[trigger] tail[i].time, #[trigger] tail[j].time) by {
                assert(tail[i] == points[i + 1] && tail[j] == points[j + 1]);
            }
        }
        lemma_insert_kept(tail, point, at - 1);
        if at < points.len() && points[at].time == point.time {
            assert(seq![points[0]] + tail =~= points);
        } else {
            assert(seq![points[0]] + tail.insert(at - 1, point) =~= points.insert(at, point));
        }
    }
    let result = insert_kept(points, point);
    if !(at < points.len() && points[at].time == point.time) {
        assert(result == points.insert(at, point));
        assert forall|i: int, j: int| 0 <= i < j < result.len() implies time_lt(#[trigger] result[i].time, #[trigger] result[j].time) by {
            if at < points.len() {
                assert(time_lt(point.time, points[at].time));
            }
            if i < at && j == at {
            } else if i == at && j > at {
                assert(result[j] == points[j - 1]);
                if j - 1 > at {
                    assert(time_lt(points[at].time, points[j - 1].time));
                }
            } else if i < at && j > at {
                assert(result[j] == points[j - 1]);
            } else if i > at {
                assert(result[i] == points[i - 1] && result[j] == points[j - 1]);
            }
        }
    }
}

/// The points of one bin, ordered by time, one per instant.
fn order_points(points: &Vec<Point>) -> (result: Vec<Point>)
    ensures
        result@ == kept(points@),
{
    let mut ordered: Vec<Point> = Vec::new();
    let mut i: usize = 0;
    while i < points.len()
        invariant
            0 <= i <= points@.len(),
            ordered@ == kept(points@.take(i as int)),
            strictly_increasing(ordered@),
        decreases points@.len() - i,
    {
        let point = &points[i];
        assert(points@.take(i + 1).drop_last() =~= points@.take(i as int));
        let mut at: usize = 0;
        while at < ordered.len() && ordered[at].time.before(&point.time)
            invariant
                0 <= at <= ordered@.len(),
                forall|k: int| 0 <= k < at ==> time_lt(#[trigger] ordered@[k].time, point.time),
            decreases ordered@.len() - at,
        {
            at = at + 1;
        }
        proof {
            lemma_insert_kept(ordered@, *point, at as int);
        }
        if at < ordered.len() && ordered[at].time == point.time {
        } else {
            ordered.insert(at, copy_chart_point(point));
        }
        i = i + 1;
    }
    assert(points@.take(points@.len() as int) =~= points@);
    ordered
}

fn same_segment(a: &Option<String>, b: &Option<String>) -> (result: bool)
    ensures
        result == (segment_view(*a) == segment_view(*b)),
{
    match (a, b) {
        (Some(x), Some(y)) => crate::text::str_eq(x.as_str(), y.as_str()),
        (None, None) => true,
        _ => false,
    }
}

/// Appends a bin's ordered points to the chart with their continuity flags.
fn link(points: &mut Vec<Point>, added: &Vec<Point>, overloaded: bool, previous_overloaded: bool)
    ensures
        final(points)@ == linked(old(points)@, added@, overloaded, previous_overloaded),
{
    let ghost base = points@;
    let mut k: usize = 0;
    while k < added.len()
        invariant
            0 <= k <= added@.len(),
            points@ == linked(base, added@.take(k as int), overloaded, previous_overloaded),
        decreases added@.len() - k,
    {
        assert(added@.take(k + 1).drop_last() =~= added@.take(k as int));
        let point = copy_chart_point(&added[k]);
        let joins = match points.last() {
            Some(previous) => same_segment(&previous.segment_id, &point.segment_id),
            None => false,
        };
        let connect = !overloaded && !(k == 0 && previous_overloaded) && point.segment_id.is_some() && joins;
        points.push(Point { connect_from_previous: connect, ..point });
        k = k + 1;
    }
    assert(added@.take(added@.len() as int) =~= added@);
}

fn reverse_bins(bins: Vec<Bin>) -> (result: Vec<Bin>)
    ensures
        result@.len() == bins@.len(),
        forall|t: int| 0 <= t < result@.len() ==> #[trigger] result@[t] == bins@[bins@.len() - 1 - t],
{
    let ghost all = bins@;
    let mut reversed: Vec<Bin> = Vec::new();
    let mut rest = bins;
    while rest.len() > 0
        invariant
            rest@.len() + reversed@.len() == all.len(),
            rest@ == all.take(rest@.len() as int),
            forall|t: int| 0 <= t < reversed@.len() ==> #[trigger] reversed@[t] == all[all.len() - 1 - t],
        decreases rest@.len(),
    {
        let item = rest.pop().unwrap();
        reversed.push(item);
    }
    reversed
}

/// The points a bin retains before ordering.
fn retained_points(bin: &Bin) -> (result: Vec<Point>)
    ensures
        result@ == retained(*bin),
{
    let mut points: Vec<Point> = Vec::new();
    if let Some(p) = &bin.first {
        points.push(copy_chart_point(p));
    }
    if let Some(p) = &bin.last {
        points.push(copy_chart_point(p));
    }
    let ghost head = points@;
    let mut s: usize = 0;
    while s < bin.extrema.len()
        invariant
            0 <= s <= bin.extrema@.len(),
            points@ == head + somes(bin.extrema@.take(s as int)),
        decreases bin.extrema@.len() - s,
    {
        assert(bin.extrema@.take(s + 1).drop_last() =~= bin.extrema@.take(s as int));
        if let Some(p) = &bin.extrema[s] {
            points.push(copy_chart_point(p));
            assert(head + somes(bin.extrema@.take(s as int)).push(*p) =~= (head + somes(bin.extrema@.take(s as int))).push(*p));
        }
        s = s + 1;
    }
    assert(bin.extrema@.take(bin.extrema@.len() as int) =~= bin.extrema@);
    assert(head =~= held(bin.first) + held(bin.last));
    points
}

impl Downsample {
    /// The chart: per bin, its retained observations in time order (one per instant)
    /// with their continuity flags, and the boundary summaries of the bins that have one.
    pub fn finish(self) -> (result: Chart)
        ensures
            result.range == self.range,
            result.start == self.start,
            result.end == self.end,
            result.bin_count == self.bins@.len(),
            result.points@ == chart_finished(self.bins@).0,
            result.boundaries@ == chart_finished(self.bins@).1,
            result.returned_observation_count == result.points@.len(),
            result.source_observation_count == self.source_count,
            result.coverage_note@ == "Since observation began. Cumulative estimated USD restarts at trustworthy segment boundaries. Actual observations only; no interpolation. Range selection clips history without changing summary baselines."@,
    {
        let ghost all = self.bins@;
        let bin_count = self.bins.len();
        let mut reversed = reverse_bins(self.bins);
        let mut points: Vec<Point> = Vec::new();
        let mut boundaries: Vec<Boundary> = Vec::new();
        let mut previous_overloaded = false;
        let mut i: usize = 0;
        assert(all.take(0) =~= Seq::<Bin>::empty());
        while i < bin_count
            invariant
                bin_count == all.len(),
                0 <= i <= bin_count,
                reversed@.len() == bin_count - i,
                forall|t: int| 0 <= t < reversed@.len() ==> #[trigger] reversed@[t] == all[all.len() - 1 - t],
                chart_finished(all.take(i as int)) == (points@, boundaries@, previous_overloaded),
            decreases bin_count - i,
        {
            let bin = reversed.pop().unwrap();
            assert(bin == all[i as int]);
            assert(all.take(i + 1).drop_last() =~= all.take(i as int));
            assert(all.take(i + 1).last() == bin);
            let overloaded = match &bin.boundary {
                Some(b) => b.overloaded,
                None => false,
            };
            let candidates = retained_points(&bin);
            let ordered = order_points(&candidates);
            link(&mut points, &ordered, overloaded, previous_overloaded);
            if let Some(b) = bin.boundary {
                boundaries.push(b);
            }
            previous_overloaded = overloaded;
            i = i + 1;
        }
        assert(all.take(bin_count as int) =~= all);
        let returned = points.len();
        Chart {
            range: self.range,
            start: self.start,
            end: self.end,
            bin_count,
            returned_observation_count: returned,
            source_observation_count: self.source_count,
            points,
            boundaries,
            coverage_note: "Since observation began. Cumulative estimated USD restarts at trustworthy segment boundaries. Actual observations only; no interpolation. Range selection clips history without changing summary baselines.",
        }
    }
}

/// The position of the first point not earlier than an instant.
pub open spec fn first_not_before(points: Seq<Point>, time: Time) -> int
    decreases points.len(),
{
    if points.len() == 0 || !time_lt(points[0].time, time) {
        0
    } else {
        1 + first_not_before(points.drop_first(), time)
    }
}

proof fn lemma_first_not_before(points: Seq<Point>, time: Time)
    requires
        strictly_increasing(points),
    ensures
        0 <= first_not_before(points, time) <= points.len(),
        forall|k: int| 0 <= k < first_not_before(points, time) ==> time_lt(#[trigger] points[k].time, time),
        first_not_before(points, time) < points.len() ==> !time_lt(points[first_not_before(points, time)].time, time),
    decreases points.len(),
{
    if points.len() > 0 && time_lt(points[0].time, time) {
        let tail = points.drop_first();
        assert(strictly_increasing(tail)) by {
            assert forall|i: int, j: int| 0 <= i < j < tail.len() implies time_lt(#[trigger] tail[i].time, #[trigger] tail[j].time) by {
                assert(tail[i] == points[i + 1] && tail[j] == points[j + 1]);
            }
        }
        lemma_first_not_before(tail, time);
        assert forall|k: int| 0 <= k < first_not_before(points, time) implies time_lt(#[trigger] points[k].time, time) by {
            if k > 0 {
                assert(points[k] == tail[k - 1]);
            }
        }
    }
}

/// The chart keeps actual observations only, one per instant, in strictly increasing
/// time: every point a bin returns is one of the points it retained, and every retained
/// instant is represented.
#[verifier::spinoff_prover]
#[verifier::rlimit(40)]
pub proof fn law_kept_points_are_ordered_observations(points: Seq<Point>)
    ensures
        strictly_increasing(kept(points)),
        forall|i: int| 0 <= i < kept(points).len() ==> points.contains(#[trigger] kept(points)[i]),
        forall|k: int| 0 <= k < points.len() ==> exists|i: int| 0 <= i < kept(points).len() && #[trigger] kept(points)[i].time == #[trigger] points[k].time,
    decreases points.len(),
{
    if points.len() > 0 {
        let front = points.drop_last();
        let point = points.last();
        law_kept_points_are_ordered_observations(front);
        let before = kept(front);
        lemma_first_not_before(before, point.time);
        let at = first_not_before(before, point.time);
        lemma_insert_kept(before, point, at);
        let result = kept(points);
        assert(result == insert_kept(before, point));
        if at < before.len() && before[at].time == point.time {
            assert(result == before);
            assert forall|i: int| 0 <= i < result.len() implies points.contains(#[trigger] result[i]) by {
                let j = choose|j: int| 0 <= j < front.len() && front[j] == before[i];
                assert(points[j] == front[j]);
            }
            assert forall|k: int| 0 <= k < points.len() implies exists|i: int| 0 <= i < result.len() && #[trigger] result[i].time == #[trigger] points[k].time by {
                if k < front.len() {
                    assert(points[k] == front[k]);
                } else {
                    assert(result[at].time == points[k].time);
                }
            }
        } else {
            assert(result == before.insert(at, point));
            assert forall|i: int| 0 <= i < result.len() implies points.contains(#[trigger] result[i]) by {
                if i == at {
                    assert(points[points.len() - 1] == point);
                } else {
                    let b = if i < at { i } else { i - 1 };
                    assert(result[i] == before[b]);
                    let j = choose|j: int| 0 <= j < front.len() && front[j] == before[b];
                    assert(points[j] == front[j]);
                }
            }
            assert forall|k: int| 0 <= k < points.len() implies exists|i: int| 0 <= i < result.len() && #[trigger] result[i].time == #[trigger] points[k].time by {
                if k < front.len() {
                    assert(points[k] == front[k]);
                    let b = choose|b: int| 0 <= b < before.len() && #[trigger] before[b].time == front[k].time;
                    if b < at {
                        assert(result[b] == before[b]);
                    } else {
                        assert(result[b + 1] == before[b]);
                    }
                } else {
                    assert(result[at] == point);
                }
            }
        }
    }
}


// ------------------------------------------------------------------ quota chart projection

/// The quota chart's running segment. Cost input covers only the interval since the
/// previous canonical time; the segment restarts at a new quota baseline and at a change
/// between complete and incomplete pricing.
#[derive(Debug)]
pub struct Projection {
    pub baseline: Option<Sample>,
    pub quota_baseline: Option<Time>,
    pub amount: i128,
    pub known: bool,
    pub accepted: u64,
    pub complete: bool,
}

/// Whether a point starts afresh: another quota baseline, or no segment yet.
pub open spec fn fresh_quota(p: Projection, quota_baseline: Option<Time>) -> bool {
    p.quota_baseline != quota_baseline || p.baseline is None
}

/// Whether pricing changes between complete and incomplete within a quota baseline.
pub open spec fn pricing_transition(p: Projection, quota_baseline: Option<Time>, interval: Cost) -> bool {
    !fresh_quota(p, quota_baseline) && p.complete != interval.complete
}

/// The boundary a point opens: an ambiguous observation; a reset (the cycle's first
/// observation after a detected reset) or an observation start for a fresh baseline;
/// priced usage resuming or unpriced usage beginning at a pricing transition.
pub open spec fn projection_boundary(
    p: Projection,
    ambiguous: bool,
    quota_baseline: Option<Time>,
    reset_at: Option<Time>,
    time: Time,
    interval: Cost,
) -> Option<BoundaryKind> {
    if ambiguous {
        Some(BoundaryKind::AmbiguousObservation)
    } else if fresh_quota(p, quota_baseline) {
        Some(if reset_at == Some(time) { BoundaryKind::Reset } else { BoundaryKind::ObservationStart })
    } else if pricing_transition(p, quota_baseline, interval) {
        Some(if interval.complete { BoundaryKind::PricedUsageResumed } else { BoundaryKind::UnpricedUsage })
    } else {
        None
    }
}

/// The segment after a boundary: it starts at the latest sample with nothing summed,
/// complete unless pricing just became incomplete.
pub open spec fn restarted(p: Projection, sample: Sample, quota_baseline: Option<Time>, interval: Cost) -> Projection {
    Projection {
        baseline: Some(sample),
        quota_baseline,
        amount: 0,
        known: false,
        accepted: 0,
        complete: fresh_quota(p, quota_baseline) || interval.complete,
    }
}

/// Whether the interval's cost is added to the segment: not at a fresh baseline, and
/// not when pricing just became complete again.
pub open spec fn adds_interval(p: Projection, quota_baseline: Option<Time>, interval: Cost) -> bool {
    !fresh_quota(p, quota_baseline) && !(pricing_transition(p, quota_baseline, interval) && interval.complete)
}

/// The interval's amount: its known subtotal, or zero; None when that text is not an
/// `i128`.
pub open spec fn interval_amount(interval: Cost) -> Option<i128> {
    match interval.known_subtotal {
        Some(t) => crate::text::parsed_i128(t@),
        None => Some(0),
    }
}

/// The segment after the interval's cost is added, or None when the amount is unreadable
/// or a sum leaves its range.
pub open spec fn with_interval(s: Projection, interval: Cost) -> Option<Projection> {
    match interval_amount(interval) {
        None => None,
        Some(v) => if s.amount + v < i128::MIN || s.amount + v > i128::MAX
            || s.accepted + interval.accepted_observations > u64::MAX {
            None
        } else {
            Some(Projection {
                amount: (s.amount + v) as i128,
                known: s.known || (interval.known_subtotal is Some && interval.accepted_observations > 0),
                accepted: (s.accepted + interval.accepted_observations) as u64,
                complete: s.complete && interval.complete,
                ..s
            })
        },
    }
}

/// The segment before the interval is added: restarted at a boundary, otherwise the same
/// segment under the current quota baseline.
pub open spec fn before_interval(p: Projection, sample: Sample, quota_baseline: Option<Time>, interval: Cost) -> Projection {
    if fresh_quota(p, quota_baseline) || pricing_transition(p, quota_baseline, interval) {
        restarted(p, sample, quota_baseline, interval)
    } else {
        Projection { quota_baseline, ..p }
    }
}

/// The projection after one point, when the point is not refused.
pub open spec fn projected(p: Projection, ambiguous: bool, latest: Option<Sample>, quota_baseline: Option<Time>, interval: Cost) -> Option<Projection> {
    if ambiguous {
        Some(Projection { baseline: None, quota_baseline: None, ..p })
    } else {
        match latest {
            None => None,
            Some(sample) => {
                let s = before_interval(p, sample, quota_baseline, interval);
                if adds_interval(p, quota_baseline, interval) { with_interval(s, interval) } else { Some(s) }
            },
        }
    }
}

/// The cumulative cost a segment reports: its amount once some cost is known or nothing
/// was accepted.
pub open spec fn segment_cost_matches(s: Projection, cost: Cost) -> bool {
    &&& (match cost.known_subtotal {
        Some(t) => (s.known || s.accepted == 0) && t@ == crate::text::decimal(s.amount as int),
        None => !(s.known || s.accepted == 0),
    })
    &&& cost.complete == s.complete
    &&& cost.accepted_observations == s.accepted
}

fn copy_sample(sample: &Sample) -> (result: Sample)
    ensures
        result == *sample,
{
    sample.copy()
}

impl Projection {
    /// No segment yet.
    pub fn new() -> (result: Projection)
        ensures
            result.baseline is None && result.quota_baseline is None && result.amount == 0 && !result.known
                && result.accepted == 0 && !result.complete,
    {
        Projection { baseline: None, quota_baseline: None, amount: 0, known: false, accepted: 0, complete: false }
    }

    /// One quota chart point at `time`: the newest sample with its segment's cumulative
    /// cost and estimate, and the boundary it opens. `reset_at` is the current cycle's
    /// first observation when that cycle began with a detected reset; `matched` is the
    /// estimate of the segment's baseline, the newest sample and the cumulative cost, used
    /// when the segment is complete and its baseline lies before the point. An ambiguous
    /// timeline blanks the point and forgets the segment. A missing newest sample, an
    /// unreadable or overflowing cost, or a missing estimate is a storage fault.
    pub fn push(
        &mut self,
        ambiguous: bool,
        latest: Option<&Sample>,
        quota_baseline: Option<Time>,
        reset_at: Option<Time>,
        time: Time,
        interval: Cost,
        matched: Option<Estimate>,
    ) -> (result: Result<(Point, Option<BoundaryKind>), ReadError>)
        ensures
            ({
                let next = projected(*old(self), ambiguous, match latest { Some(x) => Some(*x), None => None }, quota_baseline, interval);
                &&& result is Err ==> *final(self) == *old(self)
                &&& match next {
                    None => result == Err::<(Point, Option<BoundaryKind>), ReadError>(ReadError::Storage),
                    Some(s) => {
                        let segment = s.baseline.unwrap();
                        let estimate_needed = !ambiguous && s.complete && segment.time != time;
                        if estimate_needed && matched is None {
                            result == Err::<(Point, Option<BoundaryKind>), ReadError>(ReadError::Storage)
                        } else {
                            &&& *final(self) == s
                            &&& result matches Ok((point, boundary))
                            &&& boundary == projection_boundary(*old(self), ambiguous, quota_baseline, reset_at, time, interval)
                            &&& point.time == time
                            &&& !point.connect_from_previous
                            &&& if ambiguous {
                                &&& point.segment_id is None && point.weekly_used_percent is None
                                &&& point.cumulative_estimated_cost is None && point.effective_usd_per_percent is None
                                &&& point.unavailable_reason == Some(Unavailable::AmbiguousObservation)
                            } else {
                                &&& point.segment_id matches Some(id) && id@ == weekly::time_key(segment.time)
                                &&& point.weekly_used_percent matches Some(u) && u@ == latest.unwrap().used@
                                &&& point.cumulative_estimated_cost matches Some(c) && segment_cost_matches(s, c)
                                &&& if !s.complete {
                                    point.effective_usd_per_percent is None
                                        && point.unavailable_reason == Some(Unavailable::UnpricedUsage)
                                } else if segment.time == time {
                                    point.effective_usd_per_percent is None
                                        && point.unavailable_reason == Some(Unavailable::InsufficientObservations)
                                } else {
                                    point.effective_usd_per_percent == matched.unwrap().effective_usd_per_percent
                                        && point.unavailable_reason == matched.unwrap().unavailable_reason
                                }
                            }
                        }
                    },
                }
            }),
    {
        if ambiguous {
            self.baseline = None;
            self.quota_baseline = None;
            return Ok((
                Point {
                    time,
                    segment_id: None,
                    weekly_used_percent: None,
                    cumulative_estimated_cost: None,
                    effective_usd_per_percent: None,
                    unavailable_reason: Some(Unavailable::AmbiguousObservation),
                    connect_from_previous: false,
                },
                Some(BoundaryKind::AmbiguousObservation),
            ));
        }
        let sample = match latest {
            Some(x) => x,
            None => return Err(ReadError::Storage),
        };
        let fresh = !same_baseline(self.quota_baseline, quota_baseline) || self.baseline.is_none();
        let transition = !fresh && self.complete != interval.complete;
        let mut boundary: Option<BoundaryKind> = None;
        let mut next = Projection {
            baseline: match &self.baseline {
                Some(b) => Some(copy_sample(b)),
                None => None,
            },
            quota_baseline,
            amount: self.amount,
            known: self.known,
            accepted: self.accepted,
            complete: self.complete,
        };
        if fresh || transition {
            boundary = Some(if fresh {
                if same_baseline(reset_at, Some(time)) {
                    BoundaryKind::Reset
                } else {
                    BoundaryKind::ObservationStart
                }
            } else if interval.complete {
                BoundaryKind::PricedUsageResumed
            } else {
                BoundaryKind::UnpricedUsage
            });
            next = Projection {
                baseline: Some(copy_sample(sample)),
                quota_baseline,
                amount: 0,
                known: false,
                accepted: 0,
                complete: fresh || interval.complete,
            };
        }
        if !fresh && !(transition && interval.complete) {
            let amount = match &interval.known_subtotal {
                Some(t) => match crate::text::parse_i128(t.as_str()) {
                    Some(v) => v,
                    None => return Err(ReadError::Storage),
                },
                None => 0,
            };
            next.amount = match next.amount.checked_add(amount) {
                Some(v) => v,
                None => return Err(ReadError::Storage),
            };
            next.known = next.known || (interval.known_subtotal.is_some() && interval.accepted_observations > 0);
            next.accepted = match next.accepted.checked_add(interval.accepted_observations) {
                Some(v) => v,
                None => return Err(ReadError::Storage),
            };
            next.complete = next.complete && interval.complete;
        }
        let segment_time = match &next.baseline {
            Some(b) => b.time,
            None => time,
        };
        let (usd, reason) = if !next.complete {
            (None, Some(Unavailable::UnpricedUsage))
        } else if same_baseline(Some(segment_time), Some(time)) {
            (None, Some(Unavailable::InsufficientObservations))
        } else {
            match matched {
                Some(estimate) => (estimate.effective_usd_per_percent, estimate.unavailable_reason),
                None => return Err(ReadError::Storage),
            }
        };
        let cost = Cost {
            known_subtotal: if next.known || next.accepted == 0 { Some(crate::text::i128_text(next.amount)) } else { None },
            complete: next.complete,
            accepted_observations: next.accepted,
        };
        let point = Point {
            time,
            segment_id: Some(segment_time.key()),
            weekly_used_percent: Some(sample.used.clone()),
            cumulative_estimated_cost: Some(cost),
            effective_usd_per_percent: usd,
            unavailable_reason: reason,
            connect_from_previous: false,
        };
        *self = next;
        Ok((point, boundary))
    }
}

/// Equality of optional instants.
fn same_baseline(a: Option<Time>, b: Option<Time>) -> (result: bool)
    ensures
        result == (a == b),
{
    match (a, b) {
        (Some(x), Some(y)) => x.seconds == y.seconds && x.nanos == y.nanos,
        (None, None) => true,
        _ => false,
    }
}

/// Segments restart exactly at boundaries: a point opens a boundary exactly when the
/// timeline is ambiguous, the quota baseline is new, or pricing changes between complete
/// and incomplete; without a boundary the segment keeps its baseline and adds the
/// interval's cost.
pub proof fn law_segment_restarts_only_at_boundaries(
    p: Projection,
    ambiguous: bool,
    latest: Option<Sample>,
    quota_baseline: Option<Time>,
    reset_at: Option<Time>,
    time: Time,
    interval: Cost,
)
    requires
        projected(p, ambiguous, latest, quota_baseline, interval) is Some,
    ensures
        (projection_boundary(p, ambiguous, quota_baseline, reset_at, time, interval) is Some)
            <==> (ambiguous || fresh_quota(p, quota_baseline) || pricing_transition(p, quota_baseline, interval)),
        projection_boundary(p, ambiguous, quota_baseline, reset_at, time, interval) is None ==> {
            let s = projected(p, ambiguous, latest, quota_baseline, interval).unwrap();
            &&& s.baseline == p.baseline
            &&& s.quota_baseline == p.quota_baseline
            &&& s == with_interval(p, interval).unwrap()
        },
{
}

/// Over a run of points without boundaries, the segment keeps the baseline it started
/// with: a segment never spans a new quota baseline or a pricing change.
pub proof fn law_segment_spans_no_boundary(
    states: Seq<Projection>,
    ambiguous: Seq<bool>,
    latest: Seq<Option<Sample>>,
    quota_baselines: Seq<Option<Time>>,
    resets: Seq<Option<Time>>,
    times: Seq<Time>,
    intervals: Seq<Cost>,
)
    requires
        states.len() == ambiguous.len() + 1,
        latest.len() == ambiguous.len() && quota_baselines.len() == ambiguous.len() && resets.len() == ambiguous.len()
            && times.len() == ambiguous.len() && intervals.len() == ambiguous.len(),
        forall|k: int| 0 <= k < ambiguous.len() ==> projected(states[k], ambiguous[k], latest[k], quota_baselines[k], intervals[k])
            == Some(#[trigger] states[k + 1]),
        forall|k: int| 0 <= k < ambiguous.len() ==> #[trigger] projection_boundary(states[k], ambiguous[k], quota_baselines[k], resets[k], times[k], intervals[k]) is None,
    ensures
        states.last().baseline == states[0].baseline,
        states.last().quota_baseline == states[0].quota_baseline,
    decreases ambiguous.len(),
{
    let n = ambiguous.len() as int;
    if n > 0 {
        let front = states.take(n);
        assert forall|k: int| 0 <= k < n - 1 implies projected(front[k], ambiguous.drop_last()[k], latest.drop_last()[k], quota_baselines.drop_last()[k], intervals.drop_last()[k])
            == Some(#[trigger] front[k + 1]) by {
            assert(projected(states[k], ambiguous[k], latest[k], quota_baselines[k], intervals[k]) == Some(states[k + 1]));
        }
        assert forall|k: int| 0 <= k < n - 1 implies #[trigger] projection_boundary(front[k], ambiguous.drop_last()[k], quota_baselines.drop_last()[k], resets.drop_last()[k], times.drop_last()[k], intervals.drop_last()[k]) is None by {
            assert(projection_boundary(states[k], ambiguous[k], quota_baselines[k], resets[k], times[k], intervals[k]) is None);
        }
        law_segment_spans_no_boundary(front, ambiguous.drop_last(), latest.drop_last(), quota_baselines.drop_last(),
            resets.drop_last(), times.drop_last(), intervals.drop_last());
        assert(projected(states[n - 1], ambiguous[n - 1], latest[n - 1], quota_baselines[n - 1], intervals[n - 1]) == Some(states[n]));
        assert(projection_boundary(states[n - 1], ambiguous[n - 1], quota_baselines[n - 1], resets[n - 1], times[n - 1], intervals[n - 1]) is None);
        law_segment_restarts_only_at_boundaries(states[n - 1], ambiguous[n - 1], latest[n - 1], quota_baselines[n - 1], resets[n - 1], times[n - 1], intervals[n - 1]);
    }
}

} // verus!
