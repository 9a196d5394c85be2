//! Accumulators behind the dashboard's quota intervals and breakdown rows.
pub mod categories;
pub mod quota;
pub mod models;
pub mod turns;
pub mod range_quota;
pub mod usage;

use crate::dashboard::{range_start, Query, Range};
use crate::text::{decimal, i128_text, owned, parse_i128, parsed_i128, str_eq, strip_prefix};
use crate::weekly::{time_lt, time_nanos, Cost, ReadError, Time};
use vstd::prelude::*;

verus! {

/// Nanoseconds since the epoch of an instant.
pub fn nanos(time: Time) -> (result: i128)
    ensures
        result == time_nanos(time),
{
    time.seconds as i128 * 1_000_000_000 + time.nanos as i128
}

/// The instant of a count of nanoseconds since the epoch: the floor of the
/// seconds (truncated to 64 bits, as a cast does) and the non-negative rest.
pub fn time(value: i128) -> (result: Time)
    ensures
        result.seconds == (value / 1_000_000_000) as i64,
        result.nanos == value % 1_000_000_000,
{
    let mut quotient = value / 1_000_000_000;
    let mut rest = value % 1_000_000_000;
    if rest < 0 {
        quotient = quotient - 1;
        rest = rest + 1_000_000_000;
    }
    assert(quotient == value / 1_000_000_000 && rest == value % 1_000_000_000) by (nonlinear_arith)
        requires
            quotient * 1_000_000_000 + rest == value,
            0 <= rest < 1_000_000_000,
    {
        vstd::arithmetic::div_mod::lemma_fundamental_div_mod_converse(
            value as int,
            1_000_000_000,
            quotient as int,
            rest as int,
        );
    }
    Time { seconds: #[verifier::truncate] (quotient as i64), nanos: rest as u32 }
}

/// The instant just before the first retained observation, when that observation is
/// not after `end`: the chart's `All` range then includes it.
pub open spec fn first_inclusive_of(available_start: Option<Time>, end: Time) -> Option<Time> {
    match available_start {
        Some(first) => if time_lt(end, first) {
            None
        } else if first.nanos > 0 {
            Some(Time { seconds: first.seconds, nanos: (first.nanos - 1) as u32 })
        } else {
            Some(Time {
                seconds: if first.seconds == i64::MIN { i64::MIN } else { (first.seconds - 1) as i64 },
                nanos: 999_999_999,
            })
        },
        None => None,
    }
}

/// The instant just before the first retained observation, if it is not after `end`.
pub fn first_inclusive(available_start: Option<Time>, end: Time) -> (result: Option<Time>)
    ensures
        result == first_inclusive_of(available_start, end),
{
    match available_start {
        Some(first) => if end.before(&first) {
            None
        } else if first.nanos > 0 {
            Some(Time { seconds: first.seconds, nanos: first.nanos - 1 })
        } else {
            Some(Time {
                seconds: if first.seconds == i64::MIN { i64::MIN } else { first.seconds - 1 },
                nanos: 999_999_999,
            })
        },
        None => None,
    }
}

/// The chart's first instant: a current-cycle range without a known cycle covers the
/// seven days before `end` (so token and cost charts do not depend on quota
/// observations); every other range starts as the query says.
pub open spec fn chart_start_of(range: Range, end: Time, cycle: Option<Time>, first: Option<Time>) -> Time {
    if range == Range::CurrentCycle && cycle is None {
        Time {
            seconds: if end.seconds - 604800 < i64::MIN { i64::MIN } else { (end.seconds - 604800) as i64 },
            nanos: end.nanos,
        }
    } else {
        range_start(range, end, cycle, first)
    }
}

/// The chart's first instant for a query ending at `end`.
pub fn chart_start(query: &Query, end: Time, cycle: Option<Time>, first: Option<Time>) -> (result: Time)
    ensures
        result == chart_start_of(query.range, end, cycle, first),
{
    match (query.range, cycle) {
        (Range::CurrentCycle, None) => Time {
            seconds: if end.seconds < i64::MIN + 604800 { i64::MIN } else { end.seconds - 604800 },
            nanos: end.nanos,
        },
        _ => query.start(end, cycle, first),
    }
}

/// The running sum of cost groups: the exact amount of the known subtotals, whether
/// any was known, the accepted observations and whether all were priced; `None` when
/// a subtotal is not an integer or a sum leaves its range.
pub open spec fn interval_sum(groups: Seq<(Time, Cost)>) -> Option<(int, bool, int, bool)>
    decreases groups.len(),
{
    if groups.len() == 0 {
        Some((0, false, 0, true))
    } else {
        match interval_sum(groups.drop_last()) {
            None => None,
            Some((amount, known, accepted, complete)) => {
                let cost = groups.last().1;
                let summed = match cost.known_subtotal {
                    Some(text) => match parsed_i128(text@) {
                        Some(v) => if i128::MIN <= amount + v <= i128::MAX { Some((amount + v, true)) } else { None },
                        None => None,
                    },
                    None => Some((amount, known)),
                };
                match summed {
                    None => None,
                    Some((a, k)) => if accepted + cost.accepted_observations <= u64::MAX {
                        Some((a, k, accepted + cost.accepted_observations, complete && cost.complete))
                    } else {
                        None
                    },
                }
            },
        }
    }
}

/// The cost of the groups an interval takes: a subtotal when any was known or none was
/// accepted; a storage error when the groups cannot be summed.
pub open spec fn interval_cost_of(groups: Seq<(Time, Cost)>) -> Result<(Option<Seq<char>>, bool, u64), ReadError> {
    match interval_sum(groups) {
        None => Err(ReadError::Storage),
        Some((amount, known, accepted, complete)) => Ok((
            if known || accepted == 0 { Some(decimal(amount)) } else { None },
            complete,
            accepted as u64,
        )),
    }
}

/// The end of the groups at or before `time`, from `from` on.
pub open spec fn taken_until(groups: Seq<(Time, Cost)>, from: int, time: Time) -> int
    decreases groups.len() - from,
{
    if from < 0 || from >= groups.len() || time_lt(time, groups[from].0) {
        from
    } else {
        taken_until(groups, from + 1, time)
    }
}

/// Cost groups in chronological order, merged into quota observations as they pass.
#[derive(Debug)]
pub struct CostGroups {
    pub groups: Vec<(Time, Cost)>,
    pub next: usize,
}

proof fn lemma_taken_until(groups: Seq<(Time, Cost)>, from: int, time: Time)
    requires
        0 <= from <= groups.len(),
    ensures
        from <= taken_until(groups, from, time) <= groups.len(),
    decreases groups.len() - from,
{
    if from < groups.len() && !time_lt(time, groups[from].0) {
        lemma_taken_until(groups, from + 1, time);
    }
}

proof fn lemma_sum_failure_persists(all: Seq<(Time, Cost)>, start: int, i: int, j: int)
    requires
        0 <= start <= i <= j <= all.len(),
        interval_sum(all.subrange(start, i)) is None,
    ensures
        interval_sum(all.subrange(start, j)) is None,
    decreases j - i,
{
    if j > i {
        lemma_sum_failure_persists(all, start, i, j - 1);
        assert(all.subrange(start, j).drop_last() =~= all.subrange(start, j - 1));
    }
}

impl CostGroups {
    /// Takes every group at or before `time` that an earlier interval did not take, and
    /// sums them into this interval's cost.
    #[verifier::loop_isolation(false)]
    pub fn interval(&mut self, time: Time) -> (result: Result<Cost, ReadError>)
        requires
            old(self).next <= old(self).groups@.len(),
        ensures
            final(self).groups@ == old(self).groups@,
            final(self).next <= final(self).groups@.len(),
            ({
                let end = taken_until(old(self).groups@, old(self).next as int, time);
                let taken = old(self).groups@.subrange(old(self).next as int, end);
                match interval_cost_of(taken) {
                    Err(e) => result == Err::<Cost, ReadError>(e),
                    Ok((subtotal, complete, accepted)) => final(self).next == end && (result matches Ok(cost)
                        && text_of(cost.known_subtotal) == subtotal && cost.complete == complete
                        && cost.accepted_observations == accepted),
                }
            }),
    {
        let ghost start = self.next as int;
        let ghost all = self.groups@;
        proof {
            lemma_taken_until(all, start, time);
        }
        let mut amount: i128 = 0;
        let mut known = false;
        let mut accepted: u64 = 0;
        let mut complete = true;
        while self.next < self.groups.len() && !time.before(&self.groups[self.next].0)
            invariant
                self.groups@ == all,
                start <= self.next <= all.len(),
                taken_until(all, start, time) == taken_until(all, self.next as int, time),
                interval_sum(all.subrange(start, self.next as int)) == Some((amount as int, known, accepted as int, complete)),
            decreases all.len() - self.next,
        {
            let k = self.next;
            assert(all.subrange(start, k + 1).drop_last() =~= all.subrange(start, k as int));
            assert(all.subrange(start, k + 1).last() == all[k as int]);
            assert(taken_until(all, k as int, time) == taken_until(all, k + 1, time));
            proof {
                lemma_taken_until(all, k + 1, time);
            }
            let cost = &self.groups[k].1;
            match &cost.known_subtotal {
                Some(text) => {
                    let value = match parse_i128(text.as_str()) {
                        Some(v) => v,
                        None => {
                            proof {
                                lemma_sum_failure_persists(all, start, k + 1, taken_until(all, start, time));
                            }
                            return Err(ReadError::Storage);
                        },
                    };
                    amount = match amount.checked_add(value) {
                        Some(a) => a,
                        None => {
                            proof {
                                lemma_sum_failure_persists(all, start, k + 1, taken_until(all, start, time));
                            }
                            return Err(ReadError::Storage);
                        },
                    };
                    known = true;
                },
                None => {},
            }
            accepted = match accepted.checked_add(cost.accepted_observations) {
                Some(a) => a,
                None => {
                    proof {
                        lemma_sum_failure_persists(all, start, k + 1, taken_until(all, start, time));
                    }
                    return Err(ReadError::Storage);
                },
            };
            complete = complete && cost.complete;
            self.next = k + 1;
        }
        let subtotal = if known || accepted == 0 {
            Some(i128_text(amount))
        } else {
            None
        };
        Ok(Cost { known_subtotal: subtotal, complete, accepted_observations: accepted })
    }
}

/// The view of an optional text.
pub open spec fn text_of(value: Option<String>) -> Option<Seq<char>> {
    match value {
        Some(t) => Some(t@),
        None => None,
    }
}


// ------------------------------------------------------------------ breakdown labels

/// A path separator of either platform.
pub open spec fn separator(c: char) -> bool {
    c == '/' || c == '\\'
}

/// The text without trailing separators.
pub open spec fn trim_separators(s: Seq<char>) -> Seq<char>
    decreases s.len(),
{
    if s.len() > 0 && separator(s.last()) { trim_separators(s.drop_last()) } else { s }
}

/// The text after the last separator (all of it when there is none).
pub open spec fn last_piece(s: Seq<char>) -> Seq<char>
    decreases s.len(),
{
    if s.len() == 0 || separator(s.last()) { Seq::empty() } else { last_piece(s.drop_last()).push(s.last()) }
}

/// The text after the first `:` (all of it when there is none).
pub open spec fn after_colon(s: Seq<char>) -> Seq<char>
    decreases s.len(),
{
    if s.len() == 0 {
        s
    } else if s[0] == ':' {
        s.drop_first()
    } else if s.drop_first().contains(':') {
        after_colon(s.drop_first())
    } else {
        s
    }
}

/// The label and kind of a breakdown row: the unattributed and folded rows by name, a
/// model by its name, and a project by the last component of its path (a repository's
/// administrative `.git` directory standing for its work tree).
pub open spec fn breakdown_label_of(key: Seq<char>, models: bool) -> (Seq<char>, &'static str) {
    if key == "unknown:"@ {
        (if models { "Unknown model"@ } else { "Unattributed project"@ }, "unknown")
    } else if key == "other:"@ {
        (if models { "Other models"@ } else { "Other projects"@ }, "other")
    } else if models {
        (if "model:"@.is_prefix_of(key) { key.skip(6) } else { key }, "model")
    } else {
        let path = trim_separators(after_colon(key));
        let path = if "repository:"@.is_prefix_of(key) && last_piece(path) == ".git"@ {
            trim_separators(path.take(path.len() - 4))
        } else {
            path
        };
        (last_piece(path), "project")
    }
}

fn trimmed_len(s: &str, n: usize) -> (result: usize)
    requires
        n <= s@.len(),
    ensures
        result <= n,
        trim_separators(s@.take(n as int)) == s@.take(result as int),
{
    let mut m = n;
    while m > 0 && (s.get_char(m - 1) == '/' || s.get_char(m - 1) == '\\')
        invariant
            m <= n <= s@.len(),
            trim_separators(s@.take(n as int)) == trim_separators(s@.take(m as int)),
        decreases m,
    {
        assert(s@.take(m as int).drop_last() =~= s@.take(m - 1));
        m = m - 1;
    }
    assert(m > 0 ==> s@.take(m as int).last() == s@[m - 1]);
    m
}

fn last_piece_start(s: &str, n: usize) -> (result: usize)
    requires
        n <= s@.len(),
    ensures
        result <= n,
        last_piece(s@.take(n as int)) == s@.subrange(result as int, n as int),
{
    let mut m = n;
    while m > 0 && !(s.get_char(m - 1) == '/' || s.get_char(m - 1) == '\\')
        invariant
            m <= n <= s@.len(),
            last_piece(s@.take(n as int)) == last_piece(s@.take(m as int)) + s@.subrange(m as int, n as int),
        decreases m,
    {
        assert(s@.take(m as int).drop_last() =~= s@.take(m - 1));
        assert(s@.take(m as int).last() == s@[m - 1]);
        assert(s@.subrange(m - 1, n as int) =~= seq![s@[m - 1]] + s@.subrange(m as int, n as int));
        assert(last_piece(s@.take(m - 1)).push(s@[m - 1]) + s@.subrange(m as int, n as int)
            =~= last_piece(s@.take(m - 1)) + s@.subrange(m - 1, n as int));
        m = m - 1;
    }
    assert(m > 0 ==> s@.take(m as int).last() == s@[m - 1]);
    assert(last_piece(s@.take(m as int)) =~= Seq::<char>::empty());
    assert(Seq::<char>::empty() + s@.subrange(m as int, n as int) =~= s@.subrange(m as int, n as int));
    m
}

proof fn lemma_after_colon(s: Seq<char>, i: int)
    requires
        0 <= i <= s.len(),
        forall|k: int| 0 <= k < i ==> s[k] != ':',
        i < s.len() ==> s[i] == ':',
    ensures
        after_colon(s) == if i < s.len() { s.skip(i + 1) } else { s },
    decreases i,
{
    if s.len() > 0 && i > 0 {
        let t = s.drop_first();
        assert forall|k: int| 0 <= k < i - 1 implies t[k] != ':' by {
            assert(t[k] == s[k + 1]);
        }
        if i < s.len() {
            assert(t[i - 1] == ':');
            assert(t.contains(':'));
            lemma_after_colon(t, i - 1);
            assert(t.skip(i) =~= s.skip(i + 1));
        } else {
            assert(!t.contains(':')) by {
                if t.contains(':') {
                    let k = choose|k: int| 0 <= k < t.len() && t[k] == ':';
                    assert(s[k + 1] == ':');
                }
            }
        }
    } else if s.len() > 0 && i == 0 {
        assert(s.skip(1) =~= s.drop_first());
    }
}

/// The label and kind of a breakdown row (see `breakdown_label_of`).
pub fn breakdown_label(key: &str, models: bool) -> (result: (String, &'static str))
    ensures
        (result.0@, result.1) == breakdown_label_of(key@, models),
{
    proof {
        reveal_strlit("unknown:");
        reveal_strlit("other:");
        reveal_strlit("model:");
        reveal_strlit("repository:");
        reveal_strlit(".git");
    }
    if str_eq(key, "unknown:") {
        return (owned(if models { "Unknown model" } else { "Unattributed project" }), "unknown");
    }
    if str_eq(key, "other:") {
        return (owned(if models { "Other models" } else { "Other projects" }), "other");
    }
    if models {
        return match strip_prefix(key, "model:") {
            Some(rest) => (owned(rest), "model"),
            None => (owned(key), "model"),
        };
    }
    let n = key.unicode_len();
    let mut colon: usize = 0;
    while colon < n && key.get_char(colon) != ':'
        invariant
            colon <= n == key@.len(),
            forall|k: int| 0 <= k < colon ==> key@[k] != ':',
        decreases n - colon,
    {
        colon = colon + 1;
    }
    proof {
        lemma_after_colon(key@, colon as int);
    }
    let tail = if colon < n { key.substring_char(colon + 1, n) } else { key };
    assert(tail@ =~= after_colon(key@));
    let tail_len = tail.unicode_len();
    let first_end = trimmed_len(tail, tail_len);
    assert(tail@.take(tail_len as int) =~= tail@);
    let ghost path0 = tail@.take(first_end as int);
    assert(path0 == trim_separators(after_colon(key@)));
    let repository = strip_prefix(key, "repository:").is_some();
    let first_start = last_piece_start(tail, first_end);
    let piece = tail.substring_char(first_start, first_end);
    assert(piece@ =~= last_piece(path0));
    let mut end = first_end;
    if repository && str_eq(piece, ".git") {
        assert(last_piece(path0) == ".git"@);
        assert(first_end - first_start == 4);
        assert(path0.take(path0.len() - 4) =~= tail@.take(first_end - 4));
        end = trimmed_len(tail, first_end - 4);
    }
    assert(tail@.take(end as int) == if "repository:"@.is_prefix_of(key@) && last_piece(path0) == ".git"@ {
        trim_separators(path0.take(path0.len() - 4))
    } else {
        path0
    });
    let start = last_piece_start(tail, end);
    let label = tail.substring_char(start, end);
    assert(label@ =~= tail@.subrange(start as int, end as int));
    (owned(label), "project")
}

} // verus!
