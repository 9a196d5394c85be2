//! Exact weekly observation values prepared for the native tray menu and tooltip.
use crate::calendar::{civil_utc, utc_fields};
use crate::text::{decimal, push_char, push_i128, push_padded, push_str, zero_padded};
use crate::weekly::{Cost, Observation, Response, Time, Unavailable};
use vstd::prelude::*;

verus! {

/// Tray text: a compact tooltip and the exact menu rows.
pub struct Summary {
    pub tooltip: String,
    pub rows: Vec<String>,
}

// ---------------------------------------------------------------- compact tooltip values

/// UTF-16 code units of one character.
pub open spec fn utf16_units(c: char) -> nat {
    if (c as u32) >= 0x10000 { 2 } else { 1 }
}

/// UTF-16 code units of a text.
pub open spec fn utf16_len(s: Seq<char>) -> nat
    decreases s.len(),
{
    if s.len() == 0 { 0 } else { utf16_units(s[0]) + utf16_len(s.drop_first()) }
}

/// The number of leading characters that fit in `budget` UTF-16 units.
pub open spec fn fitting_prefix(s: Seq<char>, budget: int) -> nat
    decreases s.len(),
{
    if s.len() == 0 || utf16_units(s[0]) > budget {
        0
    } else {
        1 + fitting_prefix(s.drop_first(), budget - utf16_units(s[0]))
    }
}

/// The text itself when it fits in `limit` UTF-16 units, otherwise its longest fitting
/// prefix within `limit - 1` units followed by an ellipsis.
pub open spec fn compact_text(s: Seq<char>, limit: nat) -> Seq<char> {
    if utf16_len(s) <= limit {
        s
    } else {
        s.take(fitting_prefix(s, limit - 1) as int).push('…')
    }
}

fn units(c: char) -> (result: usize)
    ensures
        result == utf16_units(c),
{
    if (c as u32) >= 0x10000 { 2 } else { 1 }
}

proof fn lemma_utf16_len_split(s: Seq<char>, k: int)
    requires
        0 <= k < s.len(),
    ensures
        utf16_len(s.take(k + 1)) == utf16_len(s.take(k)) + utf16_units(s[k]),
    decreases k,
{
    if k == 0 {
        assert(s.take(1).drop_first() =~= Seq::<char>::empty());
        assert(s.take(0) =~= Seq::<char>::empty());
    } else {
        lemma_utf16_len_split(s.drop_first(), k - 1);
        assert(s.take(k + 1).drop_first() =~= s.drop_first().take(k));
        assert(s.take(k).drop_first() =~= s.drop_first().take(k - 1));
    }
}

proof fn lemma_fitting_prefix(s: Seq<char>, budget: int, k: int)
    requires
        0 <= k <= s.len(),
        utf16_len(s.take(k)) <= budget,
        k == s.len() || utf16_len(s.take(k)) + utf16_units(s[k]) > budget,
    ensures
        fitting_prefix(s, budget) == k,
    decreases k,
{
    if k == 0 {
        assert(s.take(0) =~= Seq::<char>::empty());
    } else {
        assert(s.take(k).drop_first() =~= s.drop_first().take(k - 1));
        assert(s.take(k)[0] == s[0]);
        lemma_utf16_len_split(s, 0);
        assert(s.take(1).drop_first() =~= Seq::<char>::empty());
        lemma_utf16_len_nonneg_prefix(s.drop_first(), k - 1);
        if k < s.len() {
            assert(s.drop_first()[k - 1] == s[k]);
        }
        lemma_fitting_prefix(s.drop_first(), budget - utf16_units(s[0]), k - 1);
    }
}

proof fn lemma_utf16_len_nonneg_prefix(s: Seq<char>, k: int)
    requires
        0 <= k <= s.len(),
    ensures
        utf16_len(s.take(k)) >= 0,
{
}

/// Bounds a tooltip value to `limit` UTF-16 units, marking truncation with an ellipsis.
pub fn compact(value: &str, limit: usize) -> (result: String)
    requires
        limit >= 1,
    ensures
        result@ == compact_text(value@, limit as nat),
{
    let n = value.unicode_len();
    let mut used: usize = 0;
    let mut i: usize = 0;
    let mut over = false;
    while i < n && !over
        invariant
            i <= n,
            n == value@.len(),
            used == utf16_len(value@.take(i as int)),
            used <= limit,
            over ==> i < n && used + utf16_units(value@[i as int]) > limit,
        decreases n - i + (if over { 0int } else { 1int }),
    {
        let c = value.get_char(i);
        let u = units(c);
        if u > limit - used {
            over = true;
        } else {
            proof {
                lemma_utf16_len_split(value@, i as int);
            }
            used = used + u;
            i = i + 1;
        }
    }
    if !over {
        proof {
            assert(value@.take(n as int) =~= value@);
        }
        return crate::text::owned(value);
    }
    proof {
        lemma_utf16_len_split(value@, i as int);
        lemma_utf16_len_monotone(value@, i as int + 1);
    }
    let budget = limit - 1;
    let mut text = String::new();
    let mut taken: usize = 0;
    let mut k: usize = 0;
    let mut full = false;
    while k < n && !full
        invariant
            k <= n,
            n == value@.len(),
            taken == utf16_len(value@.take(k as int)),
            taken <= budget,
            budget + 1 == limit,
            utf16_len(value@) > limit,
            text@ == value@.take(k as int),
            full ==> k < n && taken + utf16_units(value@[k as int]) > budget,
        decreases n - k + (if full { 0int } else { 1int }),
    {
        let c = value.get_char(k);
        let u = units(c);
        if u > budget - taken {
            full = true;
        } else {
            proof {
                lemma_utf16_len_split(value@, k as int);
            }
            taken = taken + u;
            push_char(&mut text, c);
            k = k + 1;
            assert(text@ =~= value@.take(k as int));
        }
    }
    proof {
        if k == n {
            assert(value@.take(n as int) =~= value@);
        }
        lemma_fitting_prefix(value@, budget as int, k as int);
    }
    push_char(&mut text, '…');
    text
}

proof fn lemma_utf16_len_monotone(s: Seq<char>, k: int)
    requires
        0 <= k <= s.len(),
    ensures
        utf16_len(s.take(k)) <= utf16_len(s),
    decreases s.len() - k,
{
    if k < s.len() {
        lemma_utf16_len_split(s, k);
        lemma_utf16_len_monotone(s, k + 1);
    } else {
        assert(s.take(k) =~= s);
    }
}

// ---------------------------------------------------------------- money

/// Decimal text padded on the left with zeros to at least thirteen characters.
pub open spec fn padded13(v: Seq<char>) -> Seq<char> {
    if v.len() >= 13 { v } else { Seq::new((13 - v.len()) as nat, |i: int| '0') + v }
}

/// The text without its trailing zeros.
pub open spec fn trim_zeros(f: Seq<char>) -> Seq<char>
    decreases f.len(),
{
    if f.len() > 0 && f.last() == '0' { trim_zeros(f.drop_last()) } else { f }
}

/// Dollars from integer trillionths of a USD: the last twelve digits are the fraction,
/// written without trailing zeros (and without a point when none remain).
pub open spec fn amount_text(v: Seq<char>) -> Seq<char> {
    let p = padded13(v);
    let whole = p.take(p.len() - 12);
    let fraction = trim_zeros(p.skip(p.len() - 12));
    if fraction.len() == 0 {
        seq!['$'] + whole
    } else {
        seq!['$'] + whole + seq!['.'] + fraction
    }
}

/// The displayed money value of an optional cost.
pub open spec fn money_text(cost: Option<Cost>) -> Seq<char> {
    let amount = match cost {
        Some(c) => match c.known_subtotal {
            Some(v) => amount_text(v@),
            None => "Unavailable"@,
        },
        None => "Unavailable"@,
    };
    if cost matches Some(c) && !c.complete {
        amount + " (incomplete known subtotal)"@
    } else {
        amount
    }
}

fn amount(value: &str) -> (result: String)
    ensures
        result@ == amount_text(value@),
{
    let n = value.unicode_len();
    let mut chars: Vec<char> = Vec::new();
    let mut k: usize = 0;
    if n < 13 {
        while k < 13 - n
            invariant
                n < 13,
                k <= 13 - n,
                chars@ =~= Seq::new(k as nat, |i: int| '0'),
            decreases 13 - n - k,
        {
            chars.push('0');
            k = k + 1;
        }
    }
    let mut j: usize = 0;
    let ghost pad = chars@;
    while j < n
        invariant
            j <= n,
            n == value@.len(),
            chars@ =~= pad + value@.take(j as int),
        decreases n - j,
    {
        chars.push(value.get_char(j));
        j = j + 1;
        assert(chars@ =~= pad + value@.take(j as int));
    }
    proof {
        assert(value@.take(n as int) =~= value@);
        assert(chars@ =~= padded13(value@));
    }
    let len = chars.len();
    let split = len - 12;
    let mut end = len;
    while end > split && chars[end - 1] == '0'
        invariant
            split <= end <= len,
            len == chars@.len(),
            split == len - 12,
            trim_zeros(chars@.subrange(split as int, end as int)) == trim_zeros(chars@.skip(split as int)),
        decreases end,
    {
        assert(chars@.subrange(split as int, end as int).drop_last() =~= chars@.subrange(split as int, end as int - 1));
        end = end - 1;
    }
    proof {
        assert(trim_zeros(chars@.subrange(split as int, end as int)) == chars@.subrange(split as int, end as int));
    }
    let mut text = String::new();
    push_char(&mut text, '$');
    let mut w: usize = 0;
    while w < split
        invariant
            w <= split,
            split <= chars@.len(),
            text@ =~= seq!['$'] + chars@.take(w as int),
        decreases split - w,
    {
        push_char(&mut text, chars[w]);
        w = w + 1;
        assert(text@ =~= seq!['$'] + chars@.take(w as int));
    }
    if end > split {
        push_char(&mut text, '.');
        let ghost head = text@;
        let mut f: usize = split;
        while f < end
            invariant
                split <= f <= end,
                end <= chars@.len(),
                text@ =~= head + chars@.subrange(split as int, f as int),
            decreases end - f,
        {
            push_char(&mut text, chars[f]);
            f = f + 1;
            assert(text@ =~= head + chars@.subrange(split as int, f as int));
        }
    }
    proof {
        assert(chars@.take(split as int) =~= padded13(value@).take(padded13(value@).len() - 12));
    }
    text
}

fn money(cost: Option<&Cost>) -> (result: String)
    ensures
        result@ == money_text(match cost { Some(c) => Some(*c), None => None }),
{
    let mut text = match cost {
        Some(c) => match &c.known_subtotal {
            Some(v) => amount(v.as_str()),
            None => crate::text::owned("Unavailable"),
        },
        None => crate::text::owned("Unavailable"),
    };
    if let Some(c) = cost {
        if !c.complete {
            push_str(&mut text, " (incomplete known subtotal)");
        }
    }
    text
}

// ---------------------------------------------------------------- reasons and time

/// Menu wording and tooltip wording of an unavailable estimate.
pub open spec fn reason_pair(reason: Unavailable) -> (&'static str, &'static str) {
    match reason {
        Unavailable::InsufficientObservations => ("Insufficient comparable observations", "insufficient"),
        Unavailable::AmbiguousObservation => ("Ambiguous observation", "ambiguous"),
        Unavailable::BelowOnePercentagePoint => ("Less than 1 percentage point observed", "<1 pp"),
        Unavailable::UnpricedUsage => ("Unpriced usage — estimate unavailable", "unpriced"),
    }
}

fn reason_text(reason: &Unavailable) -> (result: (&'static str, &'static str))
    ensures
        result == reason_pair(*reason),
{
    match reason {
        Unavailable::InsufficientObservations => ("Insufficient comparable observations", "insufficient"),
        Unavailable::AmbiguousObservation => ("Ambiguous observation", "ambiguous"),
        Unavailable::BelowOnePercentagePoint => ("Less than 1 percentage point observed", "<1 pp"),
        Unavailable::UnpricedUsage => ("Unpriced usage — estimate unavailable", "unpriced"),
    }
}

/// A year written with at least four characters, the sign counted in the width.
pub open spec fn year_text(year: int) -> Seq<char> {
    if year < 0 { seq!['-'] + zero_padded((-year) as nat, 3) } else { zero_padded(year as nat, 4) }
}

/// `YYYY-MM-DD hh:mm:ss` of civil UTC fields.
pub open spec fn civil_text(fields: (i32, u8, u8, u8, u8, u8)) -> Seq<char> {
    year_text(fields.0 as int) + seq!['-'] + zero_padded(fields.1 as nat, 2) + seq!['-'] + zero_padded(fields.2 as nat, 2)
        + seq![' '] + zero_padded(fields.3 as nat, 2) + seq![':'] + zero_padded(fields.4 as nat, 2) + seq![':']
        + zero_padded(fields.5 as nat, 2)
}

/// The exact UTC instant for the menu and the second-precision instant for the tooltip.
pub open spec fn utc_text(time: Time) -> (Seq<char>, Seq<char>) {
    match utc_fields(time.seconds) {
        Some(fields) => (
            civil_text(fields) + seq!['.'] + zero_padded(time.nanos as nat, 9) + " UTC"@,
            civil_text(fields) + seq!['Z'],
        ),
        None => (
            "Unix "@ + decimal(time.seconds as int) + seq!['.'] + zero_padded(time.nanos as nat, 9) + " UTC"@,
            "Unix "@ + decimal(time.seconds as int) + " UTC"@,
        ),
    }
}

fn civil(fields: (i32, u8, u8, u8, u8, u8)) -> (result: String)
    requires
        -9999 <= fields.0 <= 9999,
    ensures
        result@ == civil_text(fields),
{
    let mut text = String::new();
    if fields.0 < 0 {
        push_char(&mut text, '-');
        push_padded(&mut text, (0 - fields.0) as u128, 3);
    } else {
        push_padded(&mut text, fields.0 as u128, 4);
    }
    push_char(&mut text, '-');
    push_padded(&mut text, fields.1 as u128, 2);
    push_char(&mut text, '-');
    push_padded(&mut text, fields.2 as u128, 2);
    push_char(&mut text, ' ');
    push_padded(&mut text, fields.3 as u128, 2);
    push_char(&mut text, ':');
    push_padded(&mut text, fields.4 as u128, 2);
    push_char(&mut text, ':');
    push_padded(&mut text, fields.5 as u128, 2);
    assert(text@ =~= civil_text(fields));
    text
}

fn utc(time: Time) -> (result: (String, String))
    ensures
        (result.0@, result.1@) == utc_text(time),
{
    match civil_utc(time.seconds) {
        Some(fields) => {
            let mut exact = civil(fields);
            let mut short = civil(fields);
            push_char(&mut exact, '.');
            push_padded(&mut exact, time.nanos as u128, 9);
            push_str(&mut exact, " UTC");
            push_char(&mut short, 'Z');
            (exact, short)
        }
        None => {
            let mut exact = crate::text::owned("Unix ");
            push_i128(&mut exact, time.seconds as i128);
            let mut short = crate::text::owned("Unix ");
            push_i128(&mut short, time.seconds as i128);
            push_char(&mut exact, '.');
            push_padded(&mut exact, time.nanos as u128, 9);
            push_str(&mut exact, " UTC");
            push_str(&mut short, " UTC");
            (exact, short)
        }
    }
}

// ---------------------------------------------------------------- summary

pub open spec fn last_observation(weekly: &Response) -> Option<Observation> {
    match weekly.current_cycle {
        Some(cycle) => Some(cycle.last_observation),
        None => None,
    }
}

pub open spec fn reason_words(weekly: &Response) -> (Seq<char>, Seq<char>) {
    match weekly.overall.unavailable_reason {
        Some(r) => (reason_pair(r).0@, reason_pair(r).1@),
        None => ("Unavailable"@, "unavailable"@),
    }
}

pub open spec fn ratio_text(weekly: &Response) -> Seq<char> {
    if weekly.overall.unavailable_reason is Some {
        reason_words(weekly).0
    } else {
        match weekly.overall.effective_usd_per_percent {
            Some(v) => seq!['$'] + v@,
            None => "Unavailable"@,
        }
    }
}

/// The exact menu rows for a weekly projection.
pub open spec fn summary_rows(weekly: &Response) -> Seq<Seq<char>> {
    let observation = last_observation(weekly);
    let cost = match weekly.overall.estimated_cost {
        Some(c) => money_text(Some(c)),
        None => "Unavailable — "@ + reason_words(weekly).0,
    };
    let observed = match observation {
        Some(o) => utc_text(o.time).0,
        None => "Unavailable"@,
    };
    seq![
        "Weekly usage: "@ + match observation {
            Some(o) => o.used_percent@ + "%"@ + " used (account-wide)"@,
            None => "Unavailable"@,
        },
        "Comparable estimated cost: "@ + cost,
        "~USD / 1%: "@ + ratio_text(weekly),
        "Newer unmatched estimated cost: "@ + money_text(weekly.unmatched_cost) + " (excluded from ratio)"@,
        "Last observation: "@ + observed,
        "Coverage: partial local observation interval"@,
    ]
}

/// The tooltip: each value bounded so the scope and observation time stay visible.
pub open spec fn summary_tooltip(weekly: &Response) -> Seq<char> {
    let observation = last_observation(weekly);
    let percent = match observation {
        Some(o) => compact_text(o.used_percent@, 10) + "%"@,
        None => "Unavailable"@,
    };
    let cost = match weekly.overall.estimated_cost {
        Some(c) => if !c.complete { "incomplete"@ } else { money_text(Some(c)) },
        None => money_text(None),
    };
    let ratio = if weekly.overall.unavailable_reason is Some { reason_words(weekly).1 } else { ratio_text(weekly) };
    let observed = match observation {
        Some(o) => utc_text(o.time).1,
        None => "Unavailable"@,
    };
    "Weekly "@ + percent + " · local/partial\nCost "@ + compact_text(cost, 18) + "\n~USD/% "@ + compact_text(ratio, 18)
        + "\nObserved "@ + observed
}

pub open spec fn row_texts(rows: Seq<String>) -> Seq<Seq<char>> {
    rows.map_values(|r: String| r@)
}

fn joined(a: &str, b: &str) -> (result: String)
    ensures
        result@ == a@ + b@,
{
    let mut text = crate::text::owned(a);
    push_str(&mut text, b);
    text
}

impl Summary {
    /// Tray text for a weekly projection: exact menu rows, bounded tooltip values.
    pub fn from_weekly(weekly: &Response) -> (result: Summary)
        ensures
            row_texts(result.rows@) == summary_rows(weekly),
            result.tooltip@ == summary_tooltip(weekly),
    {
        let observation: Option<&Observation> = match &weekly.current_cycle {
            Some(cycle) => Some(&cycle.last_observation),
            None => None,
        };
        let (reason, short_reason) = match &weekly.overall.unavailable_reason {
            Some(r) => reason_text(r),
            None => ("Unavailable", "unavailable"),
        };
        let cost = match &weekly.overall.estimated_cost {
            Some(c) => money(Some(c)),
            None => joined("Unavailable — ", reason),
        };
        let ratio = if weekly.overall.unavailable_reason.is_some() {
            crate::text::owned(reason)
        } else {
            match &weekly.overall.effective_usd_per_percent {
                Some(v) => {
                    let mut text = String::new();
                    push_char(&mut text, '$');
                    push_str(&mut text, v.as_str());
                    assert(text@ =~= seq!['$'] + v@);
                    text
                }
                None => crate::text::owned("Unavailable"),
            }
        };
        let tooltip_cost = match &weekly.overall.estimated_cost {
            Some(c) => if !c.complete { crate::text::owned("incomplete") } else { money(Some(c)) },
            None => money(None),
        };
        let tooltip_ratio = if weekly.overall.unavailable_reason.is_some() {
            crate::text::owned(short_reason)
        } else {
            crate::text::owned(ratio.as_str())
        };
        let newer = match &weekly.unmatched_cost {
            Some(c) => money(Some(c)),
            None => money(None),
        };
        let (observed, tooltip_observed) = match observation {
            Some(o) => utc(o.time),
            None => (crate::text::owned("Unavailable"), crate::text::owned("Unavailable")),
        };
        let tooltip_percent = match observation {
            Some(o) => {
                let mut text = compact(o.used_percent.as_str(), 10);
                push_str(&mut text, "%");
                text
            }
            None => crate::text::owned("Unavailable"),
        };
        let tooltip_cost = compact(tooltip_cost.as_str(), 18);
        let tooltip_ratio = compact(tooltip_ratio.as_str(), 18);
        let mut tooltip = joined("Weekly ", tooltip_percent.as_str());
        push_str(&mut tooltip, " · local/partial\nCost ");
        push_str(&mut tooltip, tooltip_cost.as_str());
        push_str(&mut tooltip, "\n~USD/% ");
        push_str(&mut tooltip, tooltip_ratio.as_str());
        push_str(&mut tooltip, "\nObserved ");
        push_str(&mut tooltip, tooltip_observed.as_str());
        let first = match observation {
            Some(o) => {
                let mut text = joined("Weekly usage: ", o.used_percent.as_str());
                push_str(&mut text, "%");
                push_str(&mut text, " used (account-wide)");
                text
            }
            None => joined("Weekly usage: ", "Unavailable"),
        };
        let second = joined("Comparable estimated cost: ", cost.as_str());
        let third = joined("~USD / 1%: ", ratio.as_str());
        let mut fourth = joined("Newer unmatched estimated cost: ", newer.as_str());
        push_str(&mut fourth, " (excluded from ratio)");
        let fifth = joined("Last observation: ", observed.as_str());
        let sixth = crate::text::owned("Coverage: partial local observation interval");
        let mut rows: Vec<String> = Vec::new();
        rows.push(first);
        rows.push(second);
        rows.push(third);
        rows.push(fourth);
        rows.push(fifth);
        rows.push(sixth);
        proof {
            let ghost obs = last_observation(weekly);
            assert(obs is Some == observation is Some);
            assert(observation matches Some(o) ==> obs == Some(*o));
            assert(cost@ == match weekly.overall.estimated_cost {
                Some(c) => money_text(Some(c)),
                None => "Unavailable — "@ + reason_words(weekly).0,
            });
            assert(ratio@ == ratio_text(weekly));
            assert(observed@ == match obs { Some(o) => utc_text(o.time).0, None => "Unavailable"@ });
            assert(tooltip_observed@ == match obs { Some(o) => utc_text(o.time).1, None => "Unavailable"@ });
            assert(tooltip_percent@ == match obs { Some(o) => compact_text(o.used_percent@, 10) + "%"@, None => "Unavailable"@ });
            assert(first@ =~= "Weekly usage: "@ + match obs {
                Some(o) => o.used_percent@ + "%"@ + " used (account-wide)"@,
                None => "Unavailable"@,
            });
            assert(tooltip@ =~= summary_tooltip(weekly));
            assert(row_texts(rows@) =~= summary_rows(weekly));
        }
        Summary { tooltip, rows }
    }

    /// Tray text before any weekly projection is available.
    pub fn unavailable() -> (result: Summary)
        ensures
            result.tooltip@ == "Weekly unavailable · local/partial\nCost unavailable\n~USD/% unavailable\nObservation unavailable"@,
            row_texts(result.rows@) == seq![
                "Weekly usage: Unavailable"@,
                "Comparable estimated cost: Unavailable"@,
                "~USD / 1%: Unavailable"@,
                "Newer unmatched estimated cost: Unavailable (excluded from ratio)"@,
                "Last observation: Unavailable"@,
                "Coverage: partial local observation interval"@,
            ],
    {
        let mut rows: Vec<String> = Vec::new();
        rows.push(crate::text::owned("Weekly usage: Unavailable"));
        rows.push(crate::text::owned("Comparable estimated cost: Unavailable"));
        rows.push(crate::text::owned("~USD / 1%: Unavailable"));
        rows.push(crate::text::owned("Newer unmatched estimated cost: Unavailable (excluded from ratio)"));
        rows.push(crate::text::owned("Last observation: Unavailable"));
        rows.push(crate::text::owned("Coverage: partial local observation interval"));
        proof {
            assert(row_texts(rows@) =~= seq![
                "Weekly usage: Unavailable"@,
                "Comparable estimated cost: Unavailable"@,
                "~USD / 1%: Unavailable"@,
                "Newer unmatched estimated cost: Unavailable (excluded from ratio)"@,
                "Last observation: Unavailable"@,
                "Coverage: partial local observation interval"@,
            ]);
        }
        Summary {
            tooltip: crate::text::owned("Weekly unavailable · local/partial\nCost unavailable\n~USD/% unavailable\nObservation unavailable"),
            rows,
        }
    }
}

} // verus!
