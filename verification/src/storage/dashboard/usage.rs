//! The dashboard's model and project breakdowns: the five leading named groups, then
//! the unattributed usage, then everything else folded into one remainder row.
use crate::aggregates::{decimal_of, text_of, Category, EstimatedCost};
use crate::dashboard::{Breakdown, BreakdownMetric};
use crate::storage::dashboard::{breakdown_label, breakdown_label_of};
use crate::text::{i128_text, str_eq, text_less, text_lt};
use vstd::multiset::Multiset;
use vstd::prelude::*;

verus! {

/// Named groups shown before the remainder folds into one `other:` row.
pub const SHOWN_GROUPS: usize = 5;

/// The summed usage of one model or project in the range: accepted observations, the
/// known token total and how many observations knew it, the stored valuation sum and
/// how many observations were priced.
#[derive(Debug)]
pub struct Group {
    pub id: String,
    pub accepted: i64,
    pub total: Option<i64>,
    pub known: i64,
    pub amount: Option<i128>,
    pub priced: i64,
}

impl Group {
    /// An exact copy.
    pub fn copy(&self) -> (result: Group)
        ensures
            result == *self,
    {
        Group {
            id: self.id.clone(),
            accepted: self.accepted,
            total: self.total,
            known: self.known,
            amount: self.amount,
            priced: self.priced,
        }
    }
}

/// Whether a group is the unattributed one.
pub open spec fn is_unknown(g: Group) -> bool {
    g.id@ == "unknown:"@
}

/// The named groups, in input order.
pub open spec fn named_groups(s: Seq<Group>) -> Seq<Group>
    decreases s.len(),
{
    if s.len() == 0 {
        Seq::empty()
    } else if is_unknown(s.last()) {
        named_groups(s.drop_last())
    } else {
        named_groups(s.drop_last()).push(s.last())
    }
}

/// The unattributed groups, in input order.
pub open spec fn unknown_groups(s: Seq<Group>) -> Seq<Group>
    decreases s.len(),
{
    if s.len() == 0 {
        Seq::empty()
    } else if is_unknown(s.last()) {
        unknown_groups(s.drop_last()).push(s.last())
    } else {
        unknown_groups(s.drop_last())
    }
}

/// The value a group is ranked by: its token total or its stored cost.
pub open spec fn rank_value(g: Group, metric: BreakdownMetric) -> Option<int> {
    match metric {
        BreakdownMetric::Tokens => match g.total {
            Some(t) => Some(t as int),
            None => None,
        },
        BreakdownMetric::Cost => match g.amount {
            Some(a) => Some(a as int),
            None => None,
        },
    }
}

/// Whether one group ranks before another: the larger value first (a known value
/// before none), then the smaller id.
pub open spec fn ranks_above(a: Group, b: Group, metric: BreakdownMetric) -> bool {
    let (x, y) = (rank_value(a, metric), rank_value(b, metric));
    if x != y {
        match (x, y) {
            (Some(p), Some(q)) => p > q,
            (Some(_), None) => true,
            _ => false,
        }
    } else {
        text_lt(a.id@, b.id@)
    }
}

/// A ranked sequence after placing one more group before the first it ranks above.
pub open spec fn group_insert(ranked: Seq<Group>, g: Group, metric: BreakdownMetric) -> Seq<Group>
    decreases ranked.len(),
{
    if ranked.len() == 0 {
        seq![g]
    } else if ranks_above(g, ranked[0], metric) {
        seq![g] + ranked
    } else {
        seq![ranked[0]] + group_insert(ranked.drop_first(), g, metric)
    }
}

/// Groups in rank order: each placed, in turn, before the first group it ranks above.
pub open spec fn ranked_groups(s: Seq<Group>, metric: BreakdownMetric) -> Seq<Group>
    decreases s.len(),
{
    if s.len() == 0 {
        Seq::empty()
    } else {
        group_insert(ranked_groups(s.drop_last(), metric), s.last(), metric)
    }
}

/// The position a group takes among ranked groups.
pub open spec fn group_position(ranked: Seq<Group>, g: Group, metric: BreakdownMetric) -> int
    decreases ranked.len(),
{
    if ranked.len() == 0 || ranks_above(g, ranked[0], metric) {
        0
    } else {
        1 + group_position(ranked.drop_first(), g, metric)
    }
}

proof fn lemma_group_insert(ranked: Seq<Group>, g: Group, metric: BreakdownMetric)
    ensures
        0 <= group_position(ranked, g, metric) <= ranked.len(),
        group_insert(ranked, g, metric) == ranked.insert(group_position(ranked, g, metric), g),
        forall|k: int| 0 <= k < group_position(ranked, g, metric) ==> !ranks_above(g, #[trigger] ranked[k], metric),
        group_position(ranked, g, metric) < ranked.len() ==> ranks_above(g, ranked[group_position(ranked, g, metric)], metric),
    decreases ranked.len(),
{
    if ranked.len() == 0 {
        assert(seq![g] =~= ranked.insert(0, g));
    } else if ranks_above(g, ranked[0], metric) {
        assert(seq![g] + ranked =~= ranked.insert(0, g));
    } else {
        let tail = ranked.drop_first();
        lemma_group_insert(tail, g, metric);
        let p = group_position(tail, g, metric);
        assert(seq![ranked[0]] + tail.insert(p, g) =~= ranked.insert(p + 1, g));
        assert forall|k: int| 0 <= k < p + 1 implies !ranks_above(g, #[trigger] ranked[k], metric) by {
            if k > 0 {
                assert(ranked[k] == tail[k - 1]);
            }
        }
        if p < tail.len() {
            assert(ranked[p + 1] == tail[p]);
        }
    }
}

/// Summed counts of folded groups: accepted, known total (none until one is known),
/// known count, stored cost (none until one is priced) and priced count; None once a
/// sum leaves its column's range.
pub open spec fn folded_sums(s: Seq<Group>) -> Option<(int, Option<int>, int, Option<int>, int)>
    decreases s.len(),
{
    if s.len() == 0 {
        Some((0, None, 0, None, 0))
    } else {
        match folded_sums(s.drop_last()) {
            None => None,
            Some((accepted, total, known, amount, priced)) => {
                let g = s.last();
                let total2: Option<int> = match (total, g.total) {
                    (Some(a), Some(b)) => Some(a + b),
                    (Some(a), None) => Some(a),
                    (None, Some(b)) => Some(b as int),
                    (None, None) => None,
                };
                let amount2: Option<int> = match (amount, g.amount) {
                    (Some(a), Some(b)) => Some(a + b),
                    (Some(a), None) => Some(a),
                    (None, Some(b)) => Some(b as int),
                    (None, None) => None,
                };
                let fits = i64::MIN <= accepted + g.accepted <= i64::MAX && i64::MIN <= known + g.known <= i64::MAX
                    && i64::MIN <= priced + g.priced <= i64::MAX && (match total2 {
                    Some(t) => i64::MIN <= t <= i64::MAX,
                    None => true,
                }) && (match amount2 {
                    Some(a) => i128::MIN <= a <= i128::MAX,
                    None => true,
                });
                if fits {
                    Some((accepted + g.accepted, total2, known + g.known, amount2, priced + g.priced))
                } else {
                    None
                }
            },
        }
    }
}

/// A breakdown row shows a key's label and kind, its token total and completeness,
/// and its stored cost, complete when every accepted observation was priced.
pub open spec fn shows(
    row: Breakdown,
    key: Seq<char>,
    models: bool,
    sums: (int, Option<int>, int, Option<int>, int),
) -> bool {
    let (accepted, total, known, amount, priced) = sums;
    &&& row.key@ == key
    &&& (row.label@, row.kind) == breakdown_label_of(key, models)
    &&& text_of(row.tokens.known_tokens) == decimal_of(total)
    &&& row.tokens.complete == (accepted > 0 && known == accepted)
    &&& text_of(row.estimated_cost.known_subtotal) == decimal_of(amount)
    &&& row.estimated_cost.complete == (accepted > 0 && accepted == priced)
}

/// A group's own sums.
pub open spec fn sums_of(g: Group) -> (int, Option<int>, int, Option<int>, int) {
    (
        g.accepted as int,
        match g.total {
            Some(t) => Some(t as int),
            None => None,
        },
        g.known as int,
        match g.amount {
            Some(a) => Some(a as int),
            None => None,
        },
        g.priced as int,
    )
}

fn ranks_higher(a: &Group, b: &Group, metric: BreakdownMetric) -> (result: bool)
    ensures
        result == ranks_above(*a, *b, metric),
{
    let (x, y): (Option<i128>, Option<i128>) = match metric {
        BreakdownMetric::Tokens => (
            match a.total {
                Some(t) => Some(t as i128),
                None => None,
            },
            match b.total {
                Some(t) => Some(t as i128),
                None => None,
            },
        ),
        BreakdownMetric::Cost => (a.amount, b.amount),
    };
    match (x, y) {
        (Some(p), Some(q)) => if p != q { p > q } else { text_less(a.id.as_str(), b.id.as_str()) },
        (Some(_), None) => true,
        (None, Some(_)) => false,
        (None, None) => text_less(a.id.as_str(), b.id.as_str()),
    }
}

/// Orders groups for a breakdown (see `ranks_above`).
fn rank_groups(groups: Vec<Group>, metric: BreakdownMetric) -> (result: Vec<Group>)
    ensures
        result@ == ranked_groups(groups@, metric),
{
    let ghost all = groups@;
    let n = groups.len();
    let mut out: Vec<Group> = Vec::new();
    let mut i: usize = 0;
    while i < n
        invariant
            n == all.len(),
            groups@ == all,
            i <= n,
            out@ == ranked_groups(all.take(i as int), metric),
        decreases n - i,
    {
        let g = groups[i].copy();
        assert(all.take(i + 1).drop_last() =~= all.take(i as int));
        let ghost before = out@;
        proof {
            lemma_group_insert(before, g, metric);
        }
        let mut at: usize = 0;
        while at < out.len() && !ranks_higher(&g, &out[at], metric)
            invariant
                out@ == before,
                0 <= at <= out@.len(),
                forall|k: int| 0 <= k < at ==> !ranks_above(g, #[trigger] before[k], metric),
            decreases out@.len() - at,
        {
            at = at + 1;
        }
        assert(at == group_position(before, g, metric)) by {
            if at < group_position(before, g, metric) {
                assert(ranks_above(g, before[at as int], metric));
            } else if at > group_position(before, g, metric) {
                let p = group_position(before, g, metric);
                assert(!ranks_above(g, before[p], metric));
            }
        }
        out.insert(at, g);
        i = i + 1;
    }
    assert(all.take(n as int) =~= all);
    out
}

/// Running sums of folded groups, in exact range.
struct Sums {
    accepted: i64,
    total: Option<i64>,
    known: i64,
    amount: Option<i128>,
    priced: i64,
}

spec fn sums_view(s: Sums) -> (int, Option<int>, int, Option<int>, int) {
    (
        s.accepted as int,
        match s.total {
            Some(t) => Some(t as int),
            None => None,
        },
        s.known as int,
        match s.amount {
            Some(a) => Some(a as int),
            None => None,
        },
        s.priced as int,
    )
}

fn add_optional_i64(a: Option<i64>, b: Option<i64>) -> (result: Option<Option<i64>>)
    ensures
        match (a, b) {
            (Some(x), Some(y)) => if i64::MIN <= x + y <= i64::MAX {
                result == Some(Some((x + y) as i64))
            } else {
                result is None
            },
            (Some(x), None) => result == Some(Some(x)),
            (None, y) => result == Some(y),
        },
{
    match (a, b) {
        (Some(x), Some(y)) => match x.checked_add(y) {
            Some(v) => Some(Some(v)),
            None => None,
        },
        (Some(x), None) => Some(Some(x)),
        (None, y) => Some(y),
    }
}

fn add_optional_i128(a: Option<i128>, b: Option<i128>) -> (result: Option<Option<i128>>)
    ensures
        match (a, b) {
            (Some(x), Some(y)) => if i128::MIN <= x + y <= i128::MAX {
                result == Some(Some((x + y) as i128))
            } else {
                result is None
            },
            (Some(x), None) => result == Some(Some(x)),
            (None, y) => result == Some(y),
        },
{
    match (a, b) {
        (Some(x), Some(y)) => match x.checked_add(y) {
            Some(v) => Some(Some(v)),
            None => None,
        },
        (Some(x), None) => Some(Some(x)),
        (None, y) => Some(y),
    }
}

/// Once a prefix's sums leave their range, so do the whole sequence's.
proof fn lemma_folded_stays_out(s: Seq<Group>, k: int)
    requires
        0 <= k <= s.len(),
        folded_sums(s.take(k)) is None,
    ensures
        folded_sums(s) is None,
    decreases s.len(),
{
    if k < s.len() {
        assert(s.drop_last().take(k) =~= s.take(k));
        lemma_folded_stays_out(s.drop_last(), k);
    } else {
        assert(s.take(k) =~= s);
    }
}

/// One more group added to running sums, or None when a sum leaves its range.
fn add_group(sums: &Sums, g: &Group) -> (result: Option<Sums>)
    ensures
        ({
            let (accepted, total, known, amount, priced) = sums_view(*sums);
            let total2: Option<int> = match (total, g.total) {
                (Some(a), Some(b)) => Some(a + b),
                (Some(a), None) => Some(a),
                (None, Some(b)) => Some(b as int),
                (None, None) => None,
            };
            let amount2: Option<int> = match (amount, g.amount) {
                (Some(a), Some(b)) => Some(a + b),
                (Some(a), None) => Some(a),
                (None, Some(b)) => Some(b as int),
                (None, None) => None,
            };
            let fits = i64::MIN <= accepted + g.accepted <= i64::MAX && i64::MIN <= known + g.known <= i64::MAX
                && i64::MIN <= priced + g.priced <= i64::MAX && (match total2 {
                Some(t) => i64::MIN <= t <= i64::MAX,
                None => true,
            }) && (match amount2 {
                Some(a) => i128::MIN <= a <= i128::MAX,
                None => true,
            });
            if fits {
                result matches Some(r) && sums_view(r) == (accepted + g.accepted, total2, known + g.known, amount2, priced + g.priced)
            } else {
                result is None
            }
        }),
{
    let accepted = match sums.accepted.checked_add(g.accepted) {
        Some(v) => v,
        None => return None,
    };
    let known = match sums.known.checked_add(g.known) {
        Some(v) => v,
        None => return None,
    };
    let priced = match sums.priced.checked_add(g.priced) {
        Some(v) => v,
        None => return None,
    };
    let total = match add_optional_i64(sums.total, g.total) {
        Some(v) => v,
        None => return None,
    };
    let amount = match add_optional_i128(sums.amount, g.amount) {
        Some(v) => v,
        None => return None,
    };
    Some(Sums { accepted, total, known, amount, priced })
}

/// Folds groups `from..to` of `groups`, or None when a sum leaves its range.
fn fold_range(groups: &Vec<Group>, from: usize, to: usize) -> (result: Option<Sums>)
    requires
        from <= to <= groups@.len(),
    ensures
        match folded_sums(groups@.subrange(from as int, to as int)) {
            Some(s) => result matches Some(r) && sums_view(r) == s,
            None => result is None,
        },
{
    let mut sums = Sums { accepted: 0, total: None, known: 0, amount: None, priced: 0 };
    let mut i = from;
    while i < to
        invariant
            from <= i <= to <= groups@.len(),
            folded_sums(groups@.subrange(from as int, i as int)) == Some(sums_view(sums)),
        decreases to - i,
    {
        assert(groups@.subrange(from as int, i + 1).drop_last() =~= groups@.subrange(from as int, i as int));
        match add_group(&sums, &groups[i]) {
            Some(next) => sums = next,
            None => {
                proof {
                    let whole = groups@.subrange(from as int, to as int);
                    assert(whole.take(i + 1 - from) =~= groups@.subrange(from as int, i + 1));
                    lemma_folded_stays_out(whole, i + 1 - from);
                }
                return None;
            },
        }
        i = i + 1;
    }
    Some(sums)
}

fn breakdown_row(key: String, sums: &Sums, models: bool) -> (result: Breakdown)
    ensures
        shows(result, key@, models, sums_view(*sums)),
{
    let (label, kind) = breakdown_label(key.as_str(), models);
    Breakdown {
        key,
        label,
        kind,
        tokens: Category::from_sum(sums.total, sums.known, sums.accepted),
        estimated_cost: EstimatedCost {
            known_subtotal: match sums.amount {
                Some(a) => Some(i128_text(a)),
                None => None,
            },
            complete: sums.accepted > 0 && sums.accepted == sums.priced,
        },
    }
}

/// A model or project breakdown from the range's groups: the five leading named groups
/// in rank order, then the unattributed groups summed into one `unknown:` row, then
/// the remaining named groups summed into one `other:` row (each only when it has
/// groups). A sum that leaves its column's range is a storage fault.
pub fn breakdown_rows(groups: Vec<Group>, metric: BreakdownMetric, models: bool) -> (result: Result<
    Vec<Breakdown>,
    crate::weekly::ReadError,
>)
    ensures
        ({
            let ranked = ranked_groups(named_groups(groups@), metric);
            let shown = if ranked.len() < 5 { ranked.len() as int } else { 5 };
            let unknowns = unknown_groups(groups@);
            let rest = ranked.skip(shown);
            match (folded_sums(unknowns), folded_sums(rest)) {
                (Some(u), Some(o)) => result matches Ok(rows) && {
                    let with_unknown = if unknowns.len() > 0 { shown + 1 } else { shown };
                    &&& rows@.len() == if rest.len() > 0 { with_unknown + 1 } else { with_unknown }
                    &&& forall|k: int| 0 <= k < shown ==> shows(#[trigger] rows@[k], ranked[k].id@, models, sums_of(ranked[k]))
                    &&& unknowns.len() > 0 ==> shows(rows@[shown], "unknown:"@, models, u)
                    &&& rest.len() > 0 ==> shows(rows@[with_unknown], "other:"@, models, o)
                },
                _ => result == Err::<Vec<Breakdown>, crate::weekly::ReadError>(crate::weekly::ReadError::Storage),
            }
        }),
{
    proof {
        reveal_strlit("unknown:");
        reveal_strlit("other:");
    }
    let ghost all = groups@;
    let mut named: Vec<Group> = Vec::new();
    let mut unknowns: Vec<Group> = Vec::new();
    let mut i: usize = 0;
    while i < groups.len()
        invariant
            groups@ == all,
            i <= all.len(),
            named@ == named_groups(all.take(i as int)),
            unknowns@ == unknown_groups(all.take(i as int)),
        decreases all.len() - i,
    {
        assert(all.take(i + 1).drop_last() =~= all.take(i as int));
        let g = groups[i].copy();
        if str_eq(g.id.as_str(), "unknown:") {
            unknowns.push(g);
        } else {
            named.push(g);
        }
        i = i + 1;
    }
    assert(all.take(all.len() as int) =~= all);
    let ranked = rank_groups(named, metric);
    let shown = if ranked.len() < SHOWN_GROUPS { ranked.len() } else { SHOWN_GROUPS };
    let unknown_sums = fold_range(&unknowns, 0, unknowns.len());
    let rest_sums = fold_range(&ranked, shown, ranked.len());
    assert(unknowns@.subrange(0, unknowns@.len() as int) =~= unknowns@);
    assert(ranked@.subrange(shown as int, ranked@.len() as int) =~= ranked@.skip(shown as int));
    let (unknown_sums, rest_sums) = match (unknown_sums, rest_sums) {
        (Some(u), Some(o)) => (u, o),
        _ => return Err(crate::weekly::ReadError::Storage),
    };
    let mut rows: Vec<Breakdown> = Vec::new();
    let mut k: usize = 0;
    while k < shown
        invariant
            k <= shown <= ranked@.len(),
            shown <= 5,
            rows@.len() == k,
            forall|j: int| 0 <= j < k ==> shows(#[trigger] rows@[j], ranked@[j].id@, models, sums_of(ranked@[j])),
        decreases shown - k,
    {
        let g = &ranked[k];
        let sums = Sums { accepted: g.accepted, total: g.total, known: g.known, amount: g.amount, priced: g.priced };
        rows.push(breakdown_row(g.id.clone(), &sums, models));
        k = k + 1;
    }
    if unknowns.len() > 0 {
        rows.push(breakdown_row(String::from_str("unknown:"), &unknown_sums, models));
    }
    if ranked.len() > shown {
        rows.push(breakdown_row(String::from_str("other:"), &rest_sums, models));
    }
    Ok(rows)
}


/// Ranking only reorders: the ranked groups are exactly the groups given.
proof fn lemma_ranked_is_permutation(s: Seq<Group>, metric: BreakdownMetric)
    ensures
        ranked_groups(s, metric).to_multiset() == s.to_multiset(),
    decreases s.len(),
{
    broadcast use vstd::seq_lib::to_multiset_build, vstd::seq_lib::to_multiset_insert;

    if s.len() == 0 {
        assert(ranked_groups(s, metric) =~= s);
    } else {
        let front = s.drop_last();
        let before = ranked_groups(front, metric);
        lemma_ranked_is_permutation(front, metric);
        lemma_group_insert(before, s.last(), metric);
        let p = group_position(before, s.last(), metric);
        assert(ranked_groups(s, metric) == before.insert(p, s.last()));
        assert(before.insert(p, s.last()).to_multiset() == before.to_multiset().insert(s.last()));
        assert(front.push(s.last()) =~= s);
        assert(front.push(s.last()).to_multiset() =~= front.to_multiset().insert(s.last()));
    }
}

/// The named and the unattributed groups together are exactly the groups given.
proof fn lemma_groups_partition(s: Seq<Group>)
    ensures
        named_groups(s).to_multiset().add(unknown_groups(s).to_multiset()) == s.to_multiset(),
    decreases s.len(),
{
    broadcast use vstd::seq_lib::to_multiset_build, vstd::seq_lib::to_multiset_len,
        vstd::multiset::lemma_multiset_empty_len, vstd::multiset::group_multiset_axioms;

    if s.len() == 0 {
        assert(named_groups(s).to_multiset().len() == 0);
        assert(unknown_groups(s).to_multiset().len() == 0);
        assert(s.to_multiset().len() == 0);
        assert(named_groups(s).to_multiset() =~= Multiset::empty());
        assert(unknown_groups(s).to_multiset() =~= Multiset::empty());
        assert(s.to_multiset() =~= Multiset::empty());
        assert(Multiset::<Group>::empty().add(Multiset::empty()) =~= Multiset::empty());
    } else {
        let front = s.drop_last();
        lemma_groups_partition(front);
        assert(front.push(s.last()) =~= s);
        assert(s.to_multiset() =~= front.to_multiset().insert(s.last()));
        assert(named_groups(s).to_multiset().add(unknown_groups(s).to_multiset())
            =~= named_groups(front).to_multiset().add(unknown_groups(front).to_multiset()).insert(s.last()));
    }
}

/// Every group of the range is accounted for exactly once: the leading rows and the
/// folded remainder together hold exactly the named groups, ranked without loss or
/// repetition, and the unattributed row holds the remaining groups.
pub proof fn law_breakdown_accounts_for_every_group(groups: Seq<Group>, metric: BreakdownMetric, shown: int)
    requires
        0 <= shown <= ranked_groups(named_groups(groups), metric).len(),
    ensures
        ({
            let ranked = ranked_groups(named_groups(groups), metric);
            &&& ranked.take(shown) + ranked.skip(shown) == ranked
            &&& ranked.to_multiset().add(unknown_groups(groups).to_multiset()) == groups.to_multiset()
        }),
{
    let ranked = ranked_groups(named_groups(groups), metric);
    assert(ranked.take(shown) + ranked.skip(shown) =~= ranked);
    lemma_ranked_is_permutation(named_groups(groups), metric);
    lemma_groups_partition(groups);
}

} // verus!
