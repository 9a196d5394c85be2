//! Bounded retirement of usage older than the retention window: where the window
//! ends, which sources lose their pending diagnostics, and which samples expire.
use crate::adapter::{instant_of, observation_time};
use crate::calendar::{civil_utc, utc_fields};
use crate::presentation::year_text;
use crate::text::{push_char, push_padded, str_eq, zero_padded};
use vstd::prelude::*;

verus! {

pub const RETENTION_SECONDS: i64 = 3_888_000;

pub const RETENTION_BATCH: usize = 256;

/// What one retirement pass removed.
#[derive(Clone, Copy, Debug, PartialEq, Eq, Structural)]
pub struct Retired {
    pub observations: usize,
    pub samples: usize,
}

/// Strict order of canonical instants (seconds, then nanoseconds).
pub open spec fn before(a: (i64, u32), b: (i64, u32)) -> bool {
    a.0 < b.0 || (a.0 == b.0 && a.1 < b.1)
}

/// The later of two optional instants; an absent one never wins.
pub open spec fn newest_of(a: Option<(i64, u32)>, b: Option<(i64, u32)>) -> Option<(i64, u32)> {
    match (a, b) {
        (None, _) => b,
        (_, None) => a,
        (Some(x), Some(y)) => if before(x, y) {
            b
        } else {
            a
        },
    }
}

/// The newest sample instant, when its timestamp parses.
pub open spec fn sample_instant(timestamp: Option<Seq<char>>) -> Option<(i64, u32)> {
    match timestamp {
        Some(t) => match instant_of(t) {
            Ok(instant) => Some(instant),
            Err(_) => None,
        },
        None => None,
    }
}

/// Usage strictly before the cutoff is retired: the retention window ends at the
/// newest stored instant, but never after the clock. Nothing stored, no cutoff.
pub open spec fn cutoff_of(
    latest_observation: Option<(i64, u32)>,
    latest_sample: Option<Seq<char>>,
    now: (i64, u32),
) -> Option<(i64, u32)> {
    match newest_of(latest_observation, sample_instant(latest_sample)) {
        None => None,
        Some(newest) => {
            let anchor = if before(now, newest) {
                now
            } else {
                newest
            };
            Some(((anchor.0 - RETENTION_SECONDS) as i64, anchor.1))
        },
    }
}

/// The retirement cutoff from the newest observation, the newest sample's
/// timestamp (ignored when it does not parse) and the clock.
pub fn cutoff(
    latest_observation: Option<(i64, u32)>,
    latest_sample: Option<&str>,
    now: (i64, u32),
) -> (result: Option<(i64, u32)>)
    requires
        now.0 >= i64::MIN + RETENTION_SECONDS,
        latest_observation matches Some((s, _)) ==> s >= i64::MIN + RETENTION_SECONDS,
    ensures
        result == cutoff_of(
            latest_observation,
            match latest_sample { Some(t) => Some(t@), None => None },
            now,
        ),
{
    let sample = match latest_sample {
        Some(t) => match observation_time(t) {
            Ok(instant) => Some(instant),
            Err(_) => None,
        },
        None => None,
    };
    let newest = match (latest_observation, sample) {
        (None, _) => sample,
        (_, None) => latest_observation,
        (Some(x), Some(y)) => if x.0 < y.0 || (x.0 == y.0 && x.1 < y.1) {
            sample
        } else {
            latest_observation
        },
    };
    match newest {
        None => None,
        Some(newest) => {
            let anchor = if now.0 < newest.0 || (now.0 == newest.0 && now.1 < newest.1) {
                now
            } else {
                newest
            };
            Some((anchor.0 - RETENTION_SECONDS, anchor.1))
        },
    }
}

/// An expired observation as the pass reads it.
#[derive(Clone, Debug)]
pub struct Expired {
    pub id: i64,
    pub state: String,
    pub path: String,
    pub generation: i64,
}

/// The sources of pending expired observations, each once, in first-seen order.
pub open spec fn pending_keys(expired: Seq<Expired>) -> Seq<(Seq<char>, i64)>
    decreases expired.len(),
{
    if expired.len() == 0 {
        Seq::empty()
    } else {
        let rest = pending_keys(expired.drop_last());
        let e = expired.last();
        if e.state@ == "pending"@ && !rest.contains((e.path@, e.generation)) {
            rest.push((e.path@, e.generation))
        } else {
            rest
        }
    }
}

/// The views of source keys.
pub open spec fn key_views(keys: Seq<(String, i64)>) -> Seq<(Seq<char>, i64)> {
    keys.map_values(|k: (String, i64)| (k.0@, k.1))
}

/// The sources whose gap diagnostic may clear once their pending usage is retired.
pub fn pending_sources(expired: &[Expired]) -> (result: Vec<(String, i64)>)
    ensures
        key_views(result@) == pending_keys(expired@),
{
    let mut keys: Vec<(String, i64)> = Vec::new();
    let mut i: usize = 0;
    while i < expired.len()
        invariant
            i <= expired@.len(),
            key_views(keys@) == pending_keys(expired@.take(i as int)),
        decreases expired@.len() - i,
    {
        let e = &expired[i];
        assert(expired@.take(i + 1).drop_last() =~= expired@.take(i as int));
        proof {
            reveal_strlit("pending");
        }
        if str_eq(e.state.as_str(), "pending") {
            let mut seen = false;
            let mut j: usize = 0;
            while j < keys.len()
                invariant
                    j <= keys@.len(),
                    seen == exists|k: int|
                        0 <= k < j && #[trigger] key_views(keys@)[k] == (e.path@, e.generation),
                decreases keys@.len() - j,
            {
                if keys[j].1 == e.generation && str_eq(keys[j].0.as_str(), e.path.as_str()) {
                    assert(key_views(keys@)[j as int] == (e.path@, e.generation));
                    seen = true;
                }
                j = j + 1;
            }
            assert(seen == key_views(keys@).contains((e.path@, e.generation)));
            if !seen {
                let ghost before = key_views(keys@);
                keys.push((e.path.clone(), e.generation));
                assert(key_views(keys@) =~= before.push((e.path@, e.generation)));
            }
        }
        i = i + 1;
    }
    assert(expired@.take(expired@.len() as int) =~= expired@);
    keys
}

/// Whether a stored quota sample lies before the cutoff; a timestamp that does not
/// parse never expires.
pub open spec fn sample_expired_of(timestamp: Seq<char>, cutoff: (i64, u32)) -> bool {
    match instant_of(timestamp) {
        Ok(instant) => before(instant, cutoff),
        Err(_) => false,
    }
}

/// Whether a quota sample is retired.
pub fn sample_expired(timestamp: &str, cutoff: (i64, u32)) -> (result: bool)
    ensures
        result == sample_expired_of(timestamp@, cutoff),
{
    match observation_time(timestamp) {
        Ok(t) => t.0 < cutoff.0 || (t.0 == cutoff.0 && t.1 < cutoff.1),
        Err(_) => false,
    }
}

/// `YYYY-MM-DD` of a UTC timestamp, for a lexical prefilter; None outside the
/// calendar's range.
pub open spec fn date_of(seconds: i64) -> Option<Seq<char>> {
    match utc_fields(seconds) {
        Some(f) => Some(
            year_text(f.0 as int) + seq!['-'] + zero_padded(f.1 as nat, 2) + seq!['-']
                + zero_padded(f.2 as nat, 2),
        ),
        None => None,
    }
}

/// The calendar date of a Unix timestamp.
pub fn date(seconds: i64) -> (result: Option<String>)
    ensures
        match result {
            Some(t) => date_of(seconds) == Some(t@),
            None => date_of(seconds) is None,
        },
{
    match civil_utc(seconds) {
        Some(fields) => {
            let mut text = String::new();
            if fields.0 < 0 {
                push_char(&mut text, '-');
                push_padded(&mut text, (0 - fields.0) as u128, 3);
            } else {
                push_padded(&mut text, fields.0 as u128, 4);
            }
            push_char(&mut text, '-');
            push_padded(&mut text, fields.1 as u128, 2);
            push_char(&mut text, '-');
            push_padded(&mut text, fields.2 as u128, 2);
            assert(text@ =~= year_text(fields.0 as int) + seq!['-'] + zero_padded(
                fields.1 as nat,
                2,
            ) + seq!['-'] + zero_padded(fields.2 as nat, 2));
            Some(text)
        },
        None => None,
    }
}

/// The lexical prefilter for samples: the date two days after the cutoff, a
/// superset bound for timestamps written with any offset.
pub fn prefilter(cutoff: (i64, u32)) -> (result: Option<String>)
    requires
        cutoff.0 <= i64::MAX - 172_800,
    ensures
        match result {
            Some(t) => date_of((cutoff.0 + 172_800) as i64) == Some(t@),
            None => date_of((cutoff.0 + 172_800) as i64) is None,
        },
{
    date(cutoff.0 + 2 * 86_400)
}

/// The anchor never exceeds the clock, so a future clock cannot empty history:
/// the cutoff lies a full retention window before both the clock and the newest
/// stored usage.
pub proof fn law_cutoff_trails_clock_and_newest_usage(
    latest_observation: Option<(i64, u32)>,
    latest_sample: Option<Seq<char>>,
    now: (i64, u32),
)
    requires
        now.0 >= i64::MIN + RETENTION_SECONDS,
        newest_of(latest_observation, sample_instant(latest_sample)) matches Some(n) ==> n.0
            >= i64::MIN + RETENTION_SECONDS,
    ensures
        cutoff_of(latest_observation, latest_sample, now) matches Some(c) ==> {
            let newest = newest_of(latest_observation, sample_instant(latest_sample))->0;
            &&& !before(((now.0 - RETENTION_SECONDS) as i64, now.1), c)
            &&& !before(((newest.0 - RETENTION_SECONDS) as i64, newest.1), c)
        },
        cutoff_of(latest_observation, latest_sample, now) is None <==> newest_of(
            latest_observation,
            sample_instant(latest_sample),
        ) is None,
{
}

} // verus!
