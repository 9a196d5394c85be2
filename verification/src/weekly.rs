//! Weekly quota observation values shared by the dashboard, the tray and the exports.
use crate::text::{decimal, push_char, push_i128, push_padded, zero_padded};
use vstd::prelude::*;

verus! {

/// A canonical UTC instant: whole seconds since the Unix epoch and nanoseconds.
#[derive(Clone, Copy, Debug, PartialEq, Eq, Structural, PartialOrd, Ord, Hash)]
pub struct Time {
    pub seconds: i64,
    pub nanos: u32,
}

/// Nanoseconds since the epoch.
pub open spec fn time_nanos(time: Time) -> int {
    time.seconds * 1_000_000_000 + time.nanos
}

/// Strict chronological order (seconds first, then nanoseconds).
pub open spec fn time_lt(a: Time, b: Time) -> bool {
    a.seconds < b.seconds || (a.seconds == b.seconds && a.nanos < b.nanos)
}

/// The segment key of an instant: decimal seconds, `:`, nine-digit nanoseconds.
pub open spec fn time_key(time: Time) -> Seq<char> {
    decimal(time.seconds as int) + seq![':'] + zero_padded(time.nanos as nat, 9)
}

impl Time {
    /// Strictly earlier than `other`.
    pub fn before(&self, other: &Time) -> (result: bool)
        ensures
            result == time_lt(*self, *other),
    {
        self.seconds < other.seconds || (self.seconds == other.seconds && self.nanos < other.nanos)
    }

    /// Nanoseconds since the epoch.
    pub fn nanos_since_epoch(&self) -> (result: i128)
        ensures
            result == time_nanos(*self),
    {
        self.seconds as i128 * 1_000_000_000 + self.nanos as i128
    }

    /// The text key identifying a segment that starts at this instant.
    pub fn key(&self) -> (result: String)
        ensures
            result@ == time_key(*self),
    {
        let mut text = String::new();
        push_i128(&mut text, self.seconds as i128);
        push_char(&mut text, ':');
        push_padded(&mut text, self.nanos as u128, 9);
        assert(text@ =~= time_key(*self));
        text
    }
}

/// Why an estimate is unavailable.
#[derive(Clone, Copy, Debug, PartialEq, Eq, Structural)]
pub enum Unavailable {
    InsufficientObservations,
    AmbiguousObservation,
    BelowOnePercentagePoint,
    UnpricedUsage,
}

/// Estimated token cost of an interval: exact integer trillionths of a USD.
#[derive(Clone, Debug)]
pub struct Cost {
    pub known_subtotal: Option<String>,
    pub complete: bool,
    pub accepted_observations: u64,
}

/// One observed weekly quota sample.
#[derive(Clone, Debug)]
pub struct Observation {
    pub time: Time,
    pub used_percent: String,
    pub remaining_percent: String,
    pub resets_at: Option<i64>,
}

/// The quota cycle containing the latest observation.
#[derive(Clone, Debug)]
pub struct Cycle {
    pub key: String,
    pub first_observation: Observation,
    pub last_observation: Observation,
    pub detected_reset: bool,
    pub has_ambiguous_observations: bool,
    pub full_cycle_cost_known: bool,
}

/// Observed USD per percentage point over a comparable interval.
#[derive(Clone, Debug)]
pub struct Estimate {
    pub start: Option<Time>,
    pub end: Option<Time>,
    pub consumed_percentage_points: Option<String>,
    pub estimated_cost: Option<Cost>,
    pub effective_usd_per_percent: Option<String>,
    pub estimated_full_week_usd: Option<String>,
    pub unavailable_reason: Option<Unavailable>,
}

impl Estimate {
    /// An estimate carrying only the reason it is unavailable.
    pub fn unavailable(reason: Unavailable) -> (result: Estimate)
        ensures
            result.start is None,
            result.end is None,
            result.consumed_percentage_points is None,
            result.estimated_cost is None,
            result.effective_usd_per_percent is None,
            result.estimated_full_week_usd is None,
            result.unavailable_reason == Some(reason),
    {
        Estimate {
            start: None,
            end: None,
            consumed_percentage_points: None,
            estimated_cost: None,
            effective_usd_per_percent: None,
            estimated_full_week_usd: None,
            unavailable_reason: Some(reason),
        }
    }
}

/// The weekly quota projection.
#[derive(Debug)]
pub struct Response {
    pub evaluated_at: Time,
    pub current_cycle: Option<Cycle>,
    pub observation_age_seconds: Option<u64>,
    pub overall: Estimate,
    pub recent: Estimate,
    pub unmatched_cost: Option<Cost>,
    pub unmatched_cost_start: Option<Time>,
    pub history: Vec<Estimate>,
    pub next_cursor: Option<String>,
    pub excluded_samples: u64,
    pub session_weekly_percentage_impact: Option<String>,
    pub coverage_note: &'static str,
}

/// Why a read was refused.
#[derive(Clone, Copy, Debug, PartialEq, Eq, Structural)]
pub enum ReadError {
    InvalidQuery,
    Storage,
}

} // verus!
