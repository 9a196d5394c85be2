//! Per-model estimated cost, split into input, cached input, cache-write and
//! output amounts.
//!
//! Only observations that already carry a durable valuation contribute to the
//! split, and each is recomputed from that valuation's own price version. The
//! four amounts therefore add up exactly to the model's known cost subtotal,
//! which is checked against the stored amounts before the split is published.
use crate::aggregates::{decimal_of, text_of, Category, EstimatedCost, Tokens};
use crate::dashboard::ModelCost;
use crate::pricing::four_sum;
use crate::storage::dashboard::categories::{
    finished_amount, finished_reason, opt_view, summed, overflows, Categories, OUT_OF_RANGE, UNPRICED,
    NO_OBSERVATIONS,
};
use crate::text::{decimal, i128_text, lemma_text_lt_irreflexive, lemma_text_lt_transitive, strip_prefix, text_less, text_lt};
use vstd::prelude::*;

verus! {

pub const TOKEN_CATEGORIES: usize = 6;
pub const MAX_MODELS: usize = 8;
pub const UNKNOWN: &'static str = "unknown:";
pub const OTHER: &'static str = "other:";
pub const UNRECONCILED: &'static str = "Category split does not reconcile with the stored valuations";

/// Raw sums of one model (or of the folded remainder), kept unrounded so folding
/// stays exact: per token category (total, input, cached input, cache writes,
/// output, reasoning) the known sum and how many observations knew it, the
/// accepted and priced counts, distinct sessions (None once folding makes them
/// unrecoverable), the stored valuation sum and the category split.
#[derive(Clone, Debug)]
pub struct Row {
    pub sums: [Option<i64>; 6],
    pub known: [i64; 6],
    pub accepted: i64,
    pub priced: i64,
    pub sessions: Option<u64>,
    pub stored: i128,
    pub split: Categories,
}

/// `i64` addition clamped to the type's range.
pub open spec fn clamp_i64(value: int) -> i64 {
    if value > i64::MAX { i64::MAX } else if value < i64::MIN { i64::MIN } else { value as i64 }
}

/// `i128` addition clamped to the type's range.
pub open spec fn clamp_i128(value: int) -> i128 {
    if value > i128::MAX { i128::MAX } else if value < i128::MIN { i128::MIN } else { value as i128 }
}

/// Two optional sums combined: both present add (clamped), otherwise the present one.
pub open spec fn combined(a: Option<i64>, b: Option<i64>) -> Option<i64> {
    match (a, b) {
        (Some(x), Some(y)) => Some(clamp_i64(x + y)),
        (Some(x), None) => Some(x),
        (None, y) => y,
    }
}

fn saturating_i64(a: i64, b: i64) -> (result: i64)
    ensures
        result == clamp_i64(a + b),
{
    match a.checked_add(b) {
        Some(v) => v,
        None => if b > 0 { i64::MAX } else { i64::MIN },
    }
}

/// `i128` addition clamped to the type's range.
pub fn saturating_i128(a: i128, b: i128) -> (result: i128)
    ensures
        result == clamp_i128(a + b),
{
    match a.checked_add(b) {
        Some(v) => v,
        None => if b > 0 { i128::MAX } else { i128::MIN },
    }
}

/// The counters of two rows can be added without leaving `i64`.
pub open spec fn mergeable(a: Row, b: Row) -> bool {
    &&& forall|i: int| 0 <= i < 6 ==> i64::MIN <= #[trigger] a.known[i] + b.known[i] <= i64::MAX
    &&& i64::MIN <= a.accepted + b.accepted <= i64::MAX
    &&& i64::MIN <= a.priced + b.priced <= i64::MAX
}

/// The category of a row's token sum.
pub open spec fn row_category(r: Row, index: int, c: Category) -> bool {
    &&& text_of(c.known_tokens) == decimal_of(match r.sums[index] { Some(n) => Some(n as int), None => None })
    &&& c.complete == (r.accepted > 0 && r.known[index] == r.accepted)
}

/// The reason, if any, a row's split is withheld before it is finished.
pub open spec fn withheld(r: Row) -> Option<&'static str> {
    if r.priced == 0 {
        Some(if r.accepted == 0 { NO_OBSERVATIONS } else { UNPRICED })
    } else if r.split.reason is Some || four_sum(r.split.amounts@) != Some(r.stored) {
        Some(UNRECONCILED)
    } else {
        None
    }
}

/// What finishing a row publishes, apart from its key, label and kind.
pub open spec fn finished_from(r: Row, cost: ModelCost) -> bool {
    &&& row_category(r, 0, cost.tokens.total_tokens)
    &&& row_category(r, 1, cost.tokens.input_tokens)
    &&& row_category(r, 2, cost.tokens.cached_input_tokens)
    &&& row_category(r, 3, cost.tokens.cache_write_tokens)
    &&& row_category(r, 4, cost.tokens.output_tokens)
    &&& row_category(r, 5, cost.tokens.reasoning_tokens)
    &&& text_of(cost.estimated_cost.known_subtotal) == if r.priced > 0 {
        Some(decimal(r.stored as int))
    } else {
        None::<Seq<char>>
    }
    &&& cost.estimated_cost.complete == (r.accepted > 0 && r.accepted == r.priced)
    &&& cost.categories.reason == match withheld(r) {
        Some(reason) => Some(reason),
        None => finished_reason(r.split),
    }
    &&& withheld(r) is Some ==> cost.categories.input is None && cost.categories.cached_input is None
        && cost.categories.cache_writes is None && cost.categories.output is None
    &&& withheld(r) is None ==> opt_view(cost.categories.input) == finished_amount(r.split, 0)
        && opt_view(cost.categories.cached_input) == finished_amount(r.split, 1)
        && opt_view(cost.categories.cache_writes) == finished_amount(r.split, 2)
        && opt_view(cost.categories.output) == finished_amount(r.split, 3)
    &&& cost.accepted_observations == (if r.accepted > 0 { r.accepted as u64 } else { 0 })
    &&& cost.observed_sessions == r.sessions
}

impl Row {
    /// A row with nothing accumulated.
    pub fn new() -> (result: Row)
        ensures
            forall|i: int| 0 <= i < 6 ==> #[trigger] result.sums[i] is None && result.known[i] == 0,
            result.accepted == 0 && result.priced == 0 && result.stored == 0,
            result.sessions is None,
            result.split.amounts@ == seq![0i128, 0, 0, 0] && result.split.reason is None && !result.split.observed,
    {
        Row {
            sums: [None; 6],
            known: [0; 6],
            accepted: 0,
            priced: 0,
            sessions: None,
            stored: 0,
            split: Categories::default(),
        }
    }

    /// Folds another row into this one. Distinct sessions cannot be added, so the
    /// folded row reports none.
    pub fn merge(&mut self, other: Row)
        requires
            mergeable(*old(self), other),
        ensures
            forall|i: int| 0 <= i < 6 ==> #[trigger] final(self).sums[i] == combined(old(self).sums[i], other.sums[i]),
            forall|i: int| 0 <= i < 6 ==> #[trigger] final(self).known[i] == old(self).known[i] + other.known[i],
            final(self).accepted == old(self).accepted + other.accepted,
            final(self).priced == old(self).priced + other.priced,
            final(self).sessions is None,
            final(self).stored == clamp_i128(old(self).stored + other.stored),
            final(self).split.observed == (old(self).split.observed || other.split.observed),
            final(self).split.amounts@ == summed(old(self).split.amounts@, other.split.amounts@),
            final(self).split.reason == (if overflows(old(self).split.amounts@, other.split.amounts@) {
                Some(OUT_OF_RANGE)
            } else if old(self).split.reason is Some {
                old(self).split.reason
            } else {
                other.split.reason
            }),
    {
        let ghost before = *self;
        let mut index: usize = 0;
        while index < TOKEN_CATEGORIES
            invariant
                0 <= index <= 6,
                mergeable(before, other),
                forall|i: int| 0 <= i < index ==> #[trigger] self.sums[i] == combined(before.sums[i], other.sums[i]),
                forall|i: int| 0 <= i < index ==> #[trigger] self.known[i] == before.known[i] + other.known[i],
                forall|i: int| index <= i < 6 ==> #[trigger] self.sums[i] == before.sums[i],
                forall|i: int| index <= i < 6 ==> #[trigger] self.known[i] == before.known[i],
                self.accepted == before.accepted && self.priced == before.priced && self.stored == before.stored,
                self.split == before.split,
            decreases 6 - index,
        {
            let sum = match (self.sums[index], other.sums[index]) {
                (Some(a), Some(b)) => Some(saturating_i64(a, b)),
                (Some(a), None) => Some(a),
                (None, b) => b,
            };
            self.sums[index] = sum;
            self.known[index] = self.known[index] + other.known[index];
            index = index + 1;
        }
        self.accepted = self.accepted + other.accepted;
        self.priced = self.priced + other.priced;
        self.sessions = None;
        self.stored = saturating_i128(self.stored, other.stored);
        self.split.merge(other.split);
    }

    /// The row's token categories.
    pub fn tokens(&self) -> (result: Tokens)
        ensures
            row_category(*self, 0, result.total_tokens),
            row_category(*self, 1, result.input_tokens),
            row_category(*self, 2, result.cached_input_tokens),
            row_category(*self, 3, result.cache_write_tokens),
            row_category(*self, 4, result.output_tokens),
            row_category(*self, 5, result.reasoning_tokens),
    {
        Tokens {
            total_tokens: Category::from_sum(self.sums[0], self.known[0], self.accepted),
            input_tokens: Category::from_sum(self.sums[1], self.known[1], self.accepted),
            cached_input_tokens: Category::from_sum(self.sums[2], self.known[2], self.accepted),
            cache_write_tokens: Category::from_sum(self.sums[3], self.known[3], self.accepted),
            output_tokens: Category::from_sum(self.sums[4], self.known[4], self.accepted),
            reasoning_tokens: Category::from_sum(self.sums[5], self.known[5], self.accepted),
        }
    }

    /// The published row. The known subtotal is the stored valuation sum; the
    /// split is published only when it reconciles with it exactly.
    pub fn finish(self, key: String, label: String, kind: &'static str) -> (result: ModelCost)
        ensures
            result.key == key && result.label == label && result.kind == kind,
            finished_from(self, result),
    {
        let tokens = self.tokens();
        let mut split = self.split;
        if self.priced == 0 {
            split.reject(if self.accepted == 0 { NO_OBSERVATIONS } else { UNPRICED });
        } else if split.checked_total() != Some(self.stored) {
            split.reject(UNRECONCILED);
        }
        let known_subtotal = if self.priced > 0 { Some(i128_text(self.stored)) } else { None };
        ModelCost {
            key,
            label,
            kind,
            tokens,
            estimated_cost: EstimatedCost { known_subtotal, complete: self.accepted > 0 && self.accepted == self.priced },
            categories: split.finish(),
            accepted_observations: if self.accepted > 0 { self.accepted as u64 } else { 0 },
            observed_sessions: self.sessions,
        }
    }
}


// ------------------------------------------------------------------ ranking and folding

/// Whether an optional sum ranks above another (a known sum above none).
pub open spec fn sum_gt(a: Option<i64>, b: Option<i64>) -> bool {
    match (a, b) {
        (Some(x), Some(y)) => x > y,
        (Some(_), None) => true,
        _ => false,
    }
}

/// Whether one model row ranks before another: priced rows first, then the larger
/// stored cost, then the larger total token sum, then the smaller key.
pub open spec fn ranks_before(a: (String, Row), b: (String, Row)) -> bool {
    if (a.1.priced > 0) != (b.1.priced > 0) {
        a.1.priced > 0
    } else if a.1.stored != b.1.stored {
        a.1.stored > b.1.stored
    } else if a.1.sums[0] != b.1.sums[0] {
        sum_gt(a.1.sums[0], b.1.sums[0])
    } else {
        text_lt(a.0@, b.0@)
    }
}

/// A ranked sequence after placing one more row before the first row it ranks before.
pub open spec fn rank_insert(ranked: Seq<(String, Row)>, row: (String, Row)) -> Seq<(String, Row)>
    decreases ranked.len(),
{
    if ranked.len() == 0 {
        seq![row]
    } else if ranks_before(row, ranked[0]) {
        seq![row] + ranked
    } else {
        seq![ranked[0]] + rank_insert(ranked.drop_first(), row)
    }
}

/// Rows in rank order: each placed, in turn, before the first row it ranks before.
pub open spec fn ranked(rows: Seq<(String, Row)>) -> Seq<(String, Row)>
    decreases rows.len(),
{
    if rows.len() == 0 {
        Seq::empty()
    } else {
        rank_insert(ranked(rows.drop_last()), rows.last())
    }
}

/// The position a row takes: before the first row it ranks before.
pub open spec fn rank_position(ranked: Seq<(String, Row)>, row: (String, Row)) -> int
    decreases ranked.len(),
{
    if ranked.len() == 0 || ranks_before(row, ranked[0]) {
        0
    } else {
        1 + rank_position(ranked.drop_first(), row)
    }
}

proof fn lemma_rank_insert(ranked: Seq<(String, Row)>, row: (String, Row))
    ensures
        0 <= rank_position(ranked, row) <= ranked.len(),
        rank_insert(ranked, row) == ranked.insert(rank_position(ranked, row), row),
        forall|k: int| 0 <= k < rank_position(ranked, row) ==> !ranks_before(row, #[trigger] ranked[k]),
        rank_position(ranked, row) < ranked.len() ==> ranks_before(row, ranked[rank_position(ranked, row)]),
    decreases ranked.len(),
{
    if ranked.len() == 0 {
        assert(seq![row] =~= ranked.insert(0, row));
    } else if ranks_before(row, ranked[0]) {
        assert(seq![row] + ranked =~= ranked.insert(0, row));
    } else {
        let tail = ranked.drop_first();
        lemma_rank_insert(tail, row);
        let p = rank_position(tail, row);
        assert(seq![ranked[0]] + tail.insert(p, row) =~= ranked.insert(p + 1, row));
        assert forall|k: int| 0 <= k < p + 1 implies !ranks_before(row, #[trigger] ranked[k]) by {
            if k > 0 {
                assert(ranked[k] == tail[k - 1]);
            }
        }
        if p < tail.len() {
            assert(ranked[p + 1] == tail[p]);
        }
    }
}

fn sum_above(a: Option<i64>, b: Option<i64>) -> (result: bool)
    ensures
        result == sum_gt(a, b),
{
    match (a, b) {
        (Some(x), Some(y)) => x > y,
        (Some(_), None) => true,
        _ => false,
    }
}

fn rank_less(a: &(String, Row), b: &(String, Row)) -> (result: bool)
    ensures
        result == ranks_before(*a, *b),
{
    if (a.1.priced > 0) != (b.1.priced > 0) {
        a.1.priced > 0
    } else if a.1.stored != b.1.stored {
        a.1.stored > b.1.stored
    } else if a.1.sums[0] != b.1.sums[0] {
        sum_above(a.1.sums[0], b.1.sums[0])
    } else {
        text_less(a.0.as_str(), b.0.as_str())
    }
}

fn reverse_rows(rows: Vec<(String, Row)>) -> (result: Vec<(String, Row)>)
    ensures
        result@ == rows@.reverse(),
{
    let ghost all = rows@;
    let mut reversed: Vec<(String, Row)> = Vec::new();
    let mut rest = rows;
    while rest.len() > 0
        invariant
            rest@.len() + reversed@.len() == all.len(),
            rest@ == all.take(rest@.len() as int),
            forall|t: int| 0 <= t < reversed@.len() ==> #[trigger] reversed@[t] == all[all.len() - 1 - t],
        decreases rest@.len(),
    {
        let item = rest.pop().unwrap();
        reversed.push(item);
    }
    assert(reversed@ =~= all.reverse());
    reversed
}

/// Orders model rows for the cost breakdown (see `ranks_before`).
pub fn rank_models(rows: Vec<(String, Row)>) -> (result: Vec<(String, Row)>)
    ensures
        result@ == ranked(rows@),
{
    let ghost all = rows@;
    let mut pending = reverse_rows(rows);
    let mut out: Vec<(String, Row)> = Vec::new();
    let mut i: usize = 0;
    let n = pending.len();
    while pending.len() > 0
        invariant
            n == all.len(),
            pending@.len() + i == n,
            forall|t: int| 0 <= t < pending@.len() ==> #[trigger] pending@[t] == all[n - 1 - t],
            out@ == ranked(all.take(i as int)),
        decreases pending@.len(),
    {
        let row = pending.pop().unwrap();
        assert(row == all[i as int]);
        assert(all.take(i + 1).drop_last() =~= all.take(i as int));
        let ghost before = out@;
        proof {
            lemma_rank_insert(before, row);
        }
        let mut at: usize = 0;
        while at < out.len() && !rank_less(&row, &out[at])
            invariant
                out@ == before,
                0 <= at <= out@.len(),
                forall|k: int| 0 <= k < at ==> !ranks_before(row, #[trigger] before[k]),
            decreases out@.len() - at,
        {
            at = at + 1;
        }
        assert(at == rank_position(before, row)) by {
            if at < rank_position(before, row) {
                assert(ranks_before(row, before[at as int]));
            } else if at > rank_position(before, row) {
                let p = rank_position(before, row);
                assert(!ranks_before(row, before[p]));
            }
        }
        out.insert(at, row);
        i = i + 1;
    }
    assert(all.take(n as int) =~= all);
    out
}

/// A count of a row: a token category's known count, then accepted, then priced.
pub open spec fn count(r: Row, c: int) -> int {
    if c < 6 { r.known[c] as int } else if c == 6 { r.accepted as int } else { r.priced as int }
}

/// The total of a count over rows.
pub open spec fn count_total(rows: Seq<(String, Row)>, c: int) -> int
    decreases rows.len(),
{
    if rows.len() == 0 { 0 } else { count_total(rows.drop_last(), c) + count(rows.last().1, c) }
}

/// Rows whose counts are non-negative and add up within `i64`.
pub open spec fn counts_fit(rows: Seq<(String, Row)>) -> bool {
    &&& forall|k: int, c: int| 0 <= k < rows.len() && 0 <= c < 8 ==> #[trigger] count(rows[k].1, c) >= 0
    &&& forall|c: int| 0 <= c < 8 ==> #[trigger] count_total(rows, c) <= i64::MAX
}

/// The accumulated fields of rows folded, in order, into an empty row.
pub struct Folded {
    pub sums: Seq<Option<i64>>,
    pub known: Seq<int>,
    pub accepted: int,
    pub priced: int,
    pub stored: i128,
    pub amounts: Seq<i128>,
    pub reason: Option<&'static str>,
    pub observed: bool,
}

/// Rows folded into an empty row by repeated merging.
pub open spec fn folded(rows: Seq<(String, Row)>) -> Folded
    decreases rows.len(),
{
    if rows.len() == 0 {
        Folded {
            sums: Seq::new(6, |i: int| None::<i64>),
            known: Seq::new(6, |i: int| 0int),
            accepted: 0,
            priced: 0,
            stored: 0,
            amounts: seq![0i128, 0, 0, 0],
            reason: None,
            observed: false,
        }
    } else {
        let f = folded(rows.drop_last());
        let r = rows.last().1;
        Folded {
            sums: Seq::new(6, |i: int| combined(f.sums[i], r.sums[i])),
            known: Seq::new(6, |i: int| f.known[i] + r.known[i]),
            accepted: f.accepted + r.accepted,
            priced: f.priced + r.priced,
            stored: clamp_i128(f.stored + r.stored),
            amounts: summed(f.amounts, r.split.amounts@),
            reason: if overflows(f.amounts, r.split.amounts@) {
                Some(OUT_OF_RANGE)
            } else if f.reason is Some {
                f.reason
            } else {
                r.split.reason
            },
            observed: f.observed || r.split.observed,
        }
    }
}

/// A row holding exactly the fold of the rows.
pub open spec fn folds_to(rows: Seq<(String, Row)>, r: Row) -> bool {
    let f = folded(rows);
    &&& r.sums@ == f.sums
    &&& forall|i: int| 0 <= i < 6 ==> #[trigger] r.known[i] == f.known[i]
    &&& r.accepted == f.accepted
    &&& r.priced == f.priced
    &&& r.stored == f.stored
    &&& r.sessions is None
    &&& r.split.amounts@ == f.amounts
    &&& r.split.reason == f.reason
    &&& r.split.observed == f.observed
}

/// A model's label: its key without the `model:` prefix.
pub open spec fn model_label(key: Seq<char>) -> Seq<char> {
    if "model:"@.is_prefix_of(key) { key.skip(6) } else { key }
}

/// The folded remainder's label.
pub open spec fn other_label(folded: nat) -> Seq<char> {
    "Other models ("@ + decimal(folded as int) + ")"@
}

proof fn lemma_count_total_prefix(rows: Seq<(String, Row)>, i: int, c: int)
    requires
        0 <= i <= rows.len(),
        forall|k: int| 0 <= k < rows.len() ==> #[trigger] count(rows[k].1, c) >= 0,
    ensures
        0 <= count_total(rows.take(i), c) <= count_total(rows, c),
    decreases rows.len(),
{
    if rows.len() > 0 {
        if i == rows.len() {
            assert(rows.take(i) =~= rows);
            lemma_count_total_prefix(rows.drop_last(), i - 1, c);
            assert(rows.drop_last().take(i - 1) =~= rows.drop_last());
        } else {
            assert(rows.drop_last().take(i) =~= rows.take(i));
            lemma_count_total_prefix(rows.drop_last(), i, c);
            assert(count(rows.last().1, c) >= 0);
        }
    }
}

proof fn lemma_count_total_split(rows: Seq<(String, Row)>, from: int, to: int, c: int)
    requires
        0 <= from <= to <= rows.len(),
    ensures
        count_total(rows.subrange(from, to), c) + count_total(rows.take(from), c) == count_total(rows.take(to), c),
    decreases to - from,
{
    if to > from {
        lemma_count_total_split(rows, from, to - 1, c);
        assert(rows.subrange(from, to).drop_last() =~= rows.subrange(from, to - 1));
        assert(rows.take(to).drop_last() =~= rows.take(to - 1));
    } else {
        assert(rows.subrange(from, to) =~= Seq::<(String, Row)>::empty());
    }
}

/// The published model cost rows: the first eight ranked models under their own
/// names, the rest folded into one `other:` row labelled with their number, and the
/// unattributed row last.
pub fn model_costs(ranked: Vec<(String, Row)>, unknown: Option<Row>) -> (result: Vec<ModelCost>)
    requires
        counts_fit(ranked@),
    ensures
        ({
            let n = ranked@.len();
            let kept = if n < MAX_MODELS { n as int } else { MAX_MODELS as int };
            &&& result@.len() == kept + (if n > MAX_MODELS { 1int } else { 0 }) + (if unknown is Some { 1int } else { 0 })
            &&& forall|j: int| 0 <= j < kept ==> {
                &&& (#[trigger] result@[j]).key@ == ranked@[j].0@
                &&& result@[j].label@ == model_label(ranked@[j].0@)
                &&& result@[j].kind == "model"
                &&& finished_from(ranked@[j].1, result@[j])
            }
            &&& n > MAX_MODELS ==> {
                &&& result@[kept].key@ == OTHER@
                &&& result@[kept].label@ == other_label((n - MAX_MODELS) as nat)
                &&& result@[kept].kind == "other"
                &&& exists|r: Row| #[trigger] folds_to(ranked@.skip(MAX_MODELS as int), r) && finished_from(r, result@[kept])
            }
            &&& unknown matches Some(u) ==> {
                &&& result@.last().key@ == UNKNOWN@
                &&& result@.last().label@ == "Unknown model"@
                &&& result@.last().kind == "unknown"
                &&& finished_from(u, result@.last())
            }
        }),
{
    let ghost all = ranked@;
    let n = ranked.len();
    let mut pending = reverse_rows(ranked);
    let mut costs: Vec<ModelCost> = Vec::new();
    let mut other = Row::new();
    let mut folded_count: usize = 0;
    let mut k: usize = 0;
    proof {
        let f = folded(Seq::<(String, Row)>::empty());
        assert(other.sums@.len() == 6);
        assert(other.sums@ =~= f.sums);
        assert(other.split.amounts@ =~= f.amounts);
        assert forall|i: int| 0 <= i < 6 implies #[trigger] other.known[i] == f.known[i] by {
            assert(other.sums[i] is None);
        }
        assert(folds_to(Seq::<(String, Row)>::empty(), other));
    }
    while pending.len() > 0
        invariant
            n == all.len(),
            counts_fit(all),
            pending@.len() + k == n,
            forall|t: int| 0 <= t < pending@.len() ==> #[trigger] pending@[t] == all[n - 1 - t],
            costs@.len() == if k < MAX_MODELS { k as int } else { MAX_MODELS as int },
            forall|j: int| 0 <= j < costs@.len() ==> {
                &&& (#[trigger] costs@[j]).key@ == all[j].0@
                &&& costs@[j].label@ == model_label(all[j].0@)
                &&& costs@[j].kind == "model"
                &&& finished_from(all[j].1, costs@[j])
            },
            folded_count == if k < MAX_MODELS { 0int } else { k - MAX_MODELS },
            k >= MAX_MODELS ==> folds_to(all.subrange(MAX_MODELS as int, k as int), other),
            k < MAX_MODELS ==> folds_to(Seq::<(String, Row)>::empty(), other),
        decreases pending@.len(),
    {
        let (id, row) = pending.pop().unwrap();
        assert((id, row) == all[k as int]);
        if k < MAX_MODELS {
            let label = match strip_prefix(id.as_str(), "model:") {
                Some(rest) => rest.to_owned(),
                None => id.clone(),
            };
            proof {
                reveal_strlit("model:");
            }
            costs.push(row.finish(id, label, "model"));
            if k + 1 == MAX_MODELS {
                assert(all.subrange(MAX_MODELS as int, MAX_MODELS as int) =~= Seq::<(String, Row)>::empty());
            }
        } else {
            let ghost seen = all.subrange(MAX_MODELS as int, k as int);
            proof {
                assert(all.subrange(MAX_MODELS as int, k + 1).drop_last() =~= seen);
                let next = all.subrange(MAX_MODELS as int, k + 1);
                assert(next.drop_last() =~= seen);
                assert(next.last().1 == row);
                assert forall|c: int| 0 <= c < 8 implies #[trigger] count_total(seen, c) + count(row, c) <= i64::MAX && count_total(seen, c) >= 0 by {
                    assert forall|q: int| 0 <= q < all.len() implies #[trigger] count(all[q].1, c) >= 0 by {}
                    lemma_count_total_prefix(all, k + 1, c);
                    lemma_count_total_split(all, MAX_MODELS as int, k + 1, c);
                    lemma_count_total_prefix(all, MAX_MODELS as int, c);
                    assert(count_total(next, c) == count_total(seen, c) + count(row, c));
                    assert forall|q: int| 0 <= q < seen.len() implies #[trigger] count(seen[q].1, c) >= 0 by {
                        assert(seen[q] == all[MAX_MODELS + q]);
                    }
                    lemma_count_total_prefix(seen, 0, c);
                    assert(seen.take(0) =~= Seq::<(String, Row)>::empty());
                    lemma_count_total_prefix(seen, seen.len() as int, c);
                    assert(seen.take(seen.len() as int) =~= seen);
                }
                assert(count_total(seen, 6) + count(row, 6) <= i64::MAX);
                assert(count_total(seen, 7) + count(row, 7) <= i64::MAX);
                assert forall|i: int| 0 <= i < 6 implies i64::MIN <= #[trigger] other.known[i] + row.known[i] <= i64::MAX by {
                    assert(count_total(seen, i) + count(row, i) <= i64::MAX);
                    assert(count(row, i) >= 0);
                    lemma_known_total(seen, i);
                }
                lemma_known_total(seen, 6);
                lemma_known_total(seen, 7);
            }
            other.merge(row);
            folded_count = folded_count + 1;
            proof {
                let next = all.subrange(MAX_MODELS as int, k + 1);
                assert(next.drop_last() =~= seen);
                assert(other.sums@ =~= folded(next).sums);
                assert(other.split.amounts@ =~= folded(next).amounts);
            }
        }
        k = k + 1;
    }
    if folded_count > 0 {
        let mut label = String::new();
        crate::text::push_str(&mut label, "Other models (");
        crate::text::push_u128(&mut label, folded_count as u128);
        crate::text::push_char(&mut label, ')');
        proof {
            reveal_strlit("Other models (");
            reveal_strlit(")");
            assert(label@ =~= other_label(folded_count as nat));
        }
        let ghost row = other;
        costs.push(other.finish(OTHER.to_owned(), label, "other"));
        assert(folds_to(all.skip(MAX_MODELS as int), row)) by {
            assert(all.skip(MAX_MODELS as int) =~= all.subrange(MAX_MODELS as int, n as int));
        }
        assert(finished_from(row, costs@[MAX_MODELS as int]));
        assert(exists|r: Row| #[trigger] folds_to(all.skip(MAX_MODELS as int), r) && finished_from(r, costs@[MAX_MODELS as int]));
    }
    let ghost before = costs@;
    if let Some(u) = unknown {
        costs.push(u.finish(UNKNOWN.to_owned(), "Unknown model".to_owned(), "unknown"));
    }
    assert(forall|j: int| 0 <= j < before.len() ==> costs@[j] == before[j]);
    assert(k == n);
    assert(costs@.len() == (if n < MAX_MODELS { n as int } else { MAX_MODELS as int }) + (if n > MAX_MODELS { 1int } else { 0 }) + (if unknown is Some { 1int } else { 0 }));
    costs
}

/// A folded row's counts are the totals of the folded rows.
proof fn lemma_known_total(rows: Seq<(String, Row)>, c: int)
    requires
        0 <= c < 8,
    ensures
        (if c < 6 { folded(rows).known[c] } else if c == 6 { folded(rows).accepted } else { folded(rows).priced }) == count_total(rows, c),
    decreases rows.len(),
{
    if rows.len() > 0 {
        lemma_known_total(rows.drop_last(), c);
    }
}


/// The token total a row is weighed by; an unknown total weighs less than any known one.
spec fn token_weight(r: Row) -> int {
    match r.sums[0] {
        Some(t) => t as int,
        None => i64::MIN - 1,
    }
}

/// Whether a row weighs at least as much as another: priced before unpriced, then the
/// larger stored cost, then the larger token total.
spec fn weighs_at_least(a: Row, b: Row) -> bool {
    let ca: int = if a.priced > 0 { 1 } else { 0 };
    let cb: int = if b.priced > 0 { 1 } else { 0 };
    ca > cb || (ca == cb && (a.stored > b.stored || (a.stored == b.stored && token_weight(a) >= token_weight(b))))
}

proof fn lemma_rank_weighs(a: (String, Row), b: (String, Row))
    ensures
        ranks_before(a, b) ==> weighs_at_least(a.1, b.1),
        !ranks_before(a, b) ==> weighs_at_least(b.1, a.1),
        weighs_at_least(a.1, b.1) && weighs_at_least(b.1, a.1) ==> (ranks_before(a, b) == text_lt(a.0@, b.0@)),
{
}

/// Rows in non-increasing weight, rows of equal weight by key.
spec fn weight_sorted(s: Seq<(String, Row)>) -> bool {
    forall|i: int, j: int| 0 <= i < j < s.len() ==> #[trigger] weighs_at_least(s[i].1, s[j].1)
        && (weighs_at_least(s[j].1, s[i].1) ==> !text_lt(s[j].0@, s[i].0@))
}

proof fn lemma_ranked_sorted(rows: Seq<(String, Row)>)
    ensures
        weight_sorted(ranked(rows)),
        ranked(rows).len() == rows.len(),
    decreases rows.len(),
{
    if rows.len() > 0 {
        let before = ranked(rows.drop_last());
        let row = rows.last();
        lemma_ranked_sorted(rows.drop_last());
        lemma_rank_insert(before, row);
        let p = rank_position(before, row);
        before.insert_ensures(p, row);
        let n = before.insert(p, row);
        assert forall|i: int, j: int| 0 <= i < j < n.len() implies #[trigger] weighs_at_least(n[i].1, n[j].1)
            && (weighs_at_least(n[j].1, n[i].1) ==> !text_lt(n[j].0@, n[i].0@)) by {
            if j < p {
                assert(weighs_at_least(before[i].1, before[j].1));
            } else if j == p {
                lemma_rank_weighs(row, before[i]);
            } else if i < p {
                assert(n[j] == before[j - 1]);
                assert(weighs_at_least(before[i].1, before[j - 1].1));
            } else if i == p {
                let last = before[j - 1];
                let first = before[p];
                assert(n[j] == last);
                assert(n[i] == row);
                lemma_rank_weighs(row, first);
                assert(ranks_before(row, first));
                if p < j - 1 {
                    assert(weighs_at_least(first.1, last.1));
                }
                if weighs_at_least(last.1, row.1) {
                    assert(weighs_at_least(first.1, row.1));
                    assert(text_lt(row.0@, first.0@));
                    if text_lt(last.0@, row.0@) {
                        lemma_text_lt_transitive(last.0@, row.0@, first.0@);
                        if p == j - 1 {
                            lemma_text_lt_irreflexive(last.0@);
                        } else {
                            assert(weighs_at_least(last.1, first.1));
                        }
                    }
                }
            } else {
                assert(n[i] == before[i - 1]);
                assert(n[j] == before[j - 1]);
                assert(weighs_at_least(before[i - 1].1, before[j - 1].1));
            }
        }
    }
}

/// Ranking only reorders.
proof fn lemma_ranked_rows_permute(rows: Seq<(String, Row)>)
    ensures
        ranked(rows).to_multiset() == rows.to_multiset(),
    decreases rows.len(),
{
    broadcast use vstd::seq_lib::to_multiset_build, vstd::seq_lib::to_multiset_insert;

    if rows.len() == 0 {
        assert(ranked(rows) =~= rows);
    } else {
        let front = rows.drop_last();
        let before = ranked(front);
        lemma_ranked_rows_permute(front);
        lemma_rank_insert(before, rows.last());
        let p = rank_position(before, rows.last());
        assert(before.insert(p, rows.last()).to_multiset() == before.to_multiset().insert(rows.last()));
        assert(front.push(rows.last()) =~= rows);
        assert(front.push(rows.last()).to_multiset() =~= front.to_multiset().insert(rows.last()));
    }
}

/// The breakdown holds exactly the given models, heaviest first: priced models before
/// unpriced ones, then the larger stored cost, and among models alike in both, the larger known token
/// total (a model with a known total never follows one without); models alike in all
/// three follow their keys' order.
pub proof fn law_busier_models_rank_first(rows: Seq<(String, Row)>)
    ensures
        ranked(rows).len() == rows.len(),
        ranked(rows).to_multiset() == rows.to_multiset(),
        forall|i: int, j: int|
            #![trigger ranked(rows)[i], ranked(rows)[j]]
            0 <= i < j < rows.len() ==> {
                let (a, b) = (ranked(rows)[i].1, ranked(rows)[j].1);
                &&& b.priced > 0 ==> a.priced > 0
                &&& (a.priced > 0) == (b.priced > 0) ==> a.stored >= b.stored
                &&& ((a.priced > 0) == (b.priced > 0) && a.stored == b.stored && b.sums[0] is Some) ==> (
                    a.sums[0] is Some && a.sums[0].unwrap() >= b.sums[0].unwrap())
                &&& ((a.priced > 0) == (b.priced > 0) && a.stored == b.stored && a.sums[0] == b.sums[0]) ==> !text_lt(
                    ranked(rows)[j].0@, ranked(rows)[i].0@)
            },
{
    lemma_ranked_sorted(rows);
    lemma_ranked_rows_permute(rows);
    assert forall|i: int, j: int|
        #![trigger ranked(rows)[i], ranked(rows)[j]]
        0 <= i < j < rows.len() implies {
            let (a, b) = (ranked(rows)[i].1, ranked(rows)[j].1);
            &&& b.priced > 0 ==> a.priced > 0
            &&& (a.priced > 0) == (b.priced > 0) ==> a.stored >= b.stored
            &&& ((a.priced > 0) == (b.priced > 0) && a.stored == b.stored && b.sums[0] is Some) ==> (
                a.sums[0] is Some && a.sums[0].unwrap() >= b.sums[0].unwrap())
            &&& ((a.priced > 0) == (b.priced > 0) && a.stored == b.stored && a.sums[0] == b.sums[0]) ==> !text_lt(
                ranked(rows)[j].0@, ranked(rows)[i].0@)
        } by {
        assert(weighs_at_least(ranked(rows)[i].1, ranked(rows)[j].1));
    }
}

} // verus!
