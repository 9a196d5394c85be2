//! Selected-window quota intervals never borrow endpoints from outside the window.
//! Each segment between boundaries accumulates the exact cost of its samples after
//! the first; the window keeps the newest fifty closed segments and a recent
//! fifteen-minute segment.
use crate::dashboard::BoundaryKind;
use crate::text::{decimal, i128_text, parse_i128, parsed_i128};
use crate::weekly::{time_lt, Cost, Observation, ReadError, Time, Unavailable};
use vstd::prelude::*;

verus! {

pub const MAX_SEGMENTS: usize = 50;

pub const RECENT_SECONDS: i64 = 900;

/// One weekly quota sample; the used percentage is kept as its decimal text.
#[derive(Debug)]
pub struct Sample {
    pub time: Time,
    pub used: String,
    pub reset: Option<i64>,
}

impl Sample {
    /// An exact copy.
    pub fn copy(&self) -> (result: Sample)
        ensures
            result == *self,
    {
        Sample { time: self.time, used: self.used.clone(), reset: self.reset }
    }
}

/// The samples and summed cost of one segment.
#[derive(Debug)]
pub struct Segment {
    pub first: Option<Sample>,
    pub last: Option<Sample>,
    pub amount: i128,
    pub known: bool,
    pub accepted: u64,
    pub complete: bool,
}

/// An empty segment.
pub open spec fn empty_segment() -> Segment {
    Segment { first: None, last: None, amount: 0, known: false, accepted: 0, complete: false }
}

impl Default for Segment {
    fn default() -> (result: Segment)
        ensures
            result == empty_segment(),
    {
        Segment { first: None, last: None, amount: 0, known: false, accepted: 0, complete: false }
    }
}

/// The subtotal a cost adds: its known subtotal, or zero when none is known; `None`
/// when the stored text is not an `i128`.
pub open spec fn added_amount(cost: Cost) -> Option<i128> {
    match cost.known_subtotal {
        Some(k) => parsed_i128(k@),
        None => Some(0),
    }
}

/// A segment after one more sample: the first sample opens it complete; a later
/// one adds its cost. `None` when the cost is unreadable or a sum overflows.
pub open spec fn segment_after(segment: Segment, sample: Sample, cost: Cost) -> Option<Segment> {
    if segment.first is None {
        Some(Segment { first: Some(sample), last: Some(sample), complete: true, ..segment })
    } else {
        match added_amount(cost) {
            None => None,
            Some(v) => if segment.amount + v < i128::MIN || segment.amount + v > i128::MAX
                || segment.accepted + cost.accepted_observations > u64::MAX {
                None
            } else {
                Some(
                    Segment {
                        last: Some(sample),
                        amount: (segment.amount + v) as i128,
                        accepted: (segment.accepted + cost.accepted_observations) as u64,
                        known: segment.known || (cost.known_subtotal is Some
                            && cost.accepted_observations > 0),
                        complete: segment.complete && cost.complete,
                        ..segment
                    },
                )
            },
        }
    }
}

/// A segment's interval: its first and last samples with the summed cost, or why
/// it has none.
#[derive(Debug)]
pub enum Interval {
    Matched { first: Sample, last: Sample, cost: Cost },
    Unavailable(Unavailable),
}

/// Whether an interval is the one a segment describes: two samples at distinct
/// instants are needed; the summed subtotal is known when some priced usage was
/// seen or no usage at all.
pub open spec fn describes(interval: Interval, segment: Segment) -> bool {
    match (segment.first, segment.last) {
        (Some(f), Some(l)) => if time_lt(f.time, l.time) {
            interval matches Interval::Matched { first, last, cost } && first == f && last == l
                && cost.complete == segment.complete && cost.accepted_observations
                == segment.accepted && match cost.known_subtotal {
                Some(k) => (segment.known || segment.accepted == 0) && k@ == decimal(
                    segment.amount as int,
                ),
                None => !(segment.known || segment.accepted == 0),
            }
        } else {
            interval == Interval::Unavailable(Unavailable::InsufficientObservations)
        },
        _ => interval == Interval::Unavailable(Unavailable::InsufficientObservations),
    }
}

impl Segment {
    /// Adds a sample and the cost of the usage since the previous sample; the
    /// segment is unchanged when the cost is unreadable or a sum overflows.
    pub fn push(&mut self, sample: Sample, cost: &Cost) -> (result: Result<(), crate::weekly::ReadError>)
        ensures
            match segment_after(*old(self), sample, *cost) {
                Some(next) => result is Ok && *final(self) == next,
                None => result == Err::<(), crate::weekly::ReadError>(
                    crate::weekly::ReadError::Storage,
                ) && *final(self) == *old(self),
            },
    {
        if self.first.is_none() {
            self.first = Some(sample.copy());
            self.complete = true;
            self.last = Some(sample);
            return Ok(());
        }
        let added = match &cost.known_subtotal {
            Some(k) => parse_i128(k.as_str()),
            None => Some(0),
        };
        let added = match added {
            Some(v) => v,
            None => return Err(crate::weekly::ReadError::Storage),
        };
        let amount = match self.amount.checked_add(added) {
            Some(a) => a,
            None => return Err(crate::weekly::ReadError::Storage),
        };
        let accepted = match self.accepted.checked_add(cost.accepted_observations) {
            Some(a) => a,
            None => return Err(crate::weekly::ReadError::Storage),
        };
        self.amount = amount;
        self.accepted = accepted;
        self.known = self.known || (cost.known_subtotal.is_some() && cost.accepted_observations > 0);
        self.complete = self.complete && cost.complete;
        self.last = Some(sample);
        Ok(())
    }

    /// The segment's interval.
    pub fn estimate(&self) -> (result: Interval)
        ensures
            describes(result, *self),
    {
        match (&self.first, &self.last) {
            (Some(first), Some(last)) => if first.time.before(&last.time) {
                Interval::Matched {
                    first: first.copy(),
                    last: last.copy(),
                    cost: Cost {
                        known_subtotal: if self.known || self.accepted == 0 {
                            Some(i128_text(self.amount))
                        } else {
                            None
                        },
                        complete: self.complete,
                        accepted_observations: self.accepted,
                    },
                }
            } else {
                Interval::Unavailable(Unavailable::InsufficientObservations)
            },
            _ => Interval::Unavailable(Unavailable::InsufficientObservations),
        }
    }
}

/// The quota of a selected window, accumulated sample by sample.
#[derive(Debug)]
pub struct SelectedQuota {
    pub start: Time,
    pub recent_start: Time,
    pub current: Segment,
    pub recent: Segment,
    pub segments: Vec<Interval>,
    pub count: u64,
    pub latest: Option<Sample>,
}

/// The window's closed segments after closing `segment`: the oldest of fifty is
/// dropped and the new interval describes the segment.
pub open spec fn closed_onto(before: Seq<Interval>, after: Seq<Interval>, segment: Segment) -> bool {
    let kept = if before.len() == MAX_SEGMENTS { before.drop_first() } else { before };
    &&& after.len() == kept.len() + 1
    &&& after.take(kept.len() as int) == kept
    &&& describes(after.last(), segment)
}

/// The start of the recent segment: fifteen minutes before the window's end
/// (saturating), but never before the window's start.
pub open spec fn recent_start_of(start: Time, end: Time) -> Time {
    let seconds = if end.seconds - RECENT_SECONDS < i64::MIN {
        i64::MIN
    } else {
        (end.seconds - RECENT_SECONDS) as i64
    };
    let candidate = Time { seconds, nanos: end.nanos };
    if time_lt(start, candidate) {
        candidate
    } else {
        start
    }
}

/// The difference `100 - used` as `bigdecimal` computes and displays it, for a used
/// percentage that `bigdecimal` reads as a decimal number; None otherwise.
pub uninterp spec fn hundred_minus(used: Seq<char>) -> Option<Seq<char>>;

/// Reads the used percentage with `<bigdecimal::BigDecimal as FromStr>::from_str`, takes
/// `BigDecimal::from(100) - used` and displays the difference. Trusted: the result
/// depends on the text alone.
#[verifier::external_body]
fn remaining_text(used: &str) -> (result: Option<String>)
    ensures
        match result {
            Some(t) => hundred_minus(used@) == Some(t@),
            None => hundred_minus(used@) is None,
        },
{
    match used.parse::<bigdecimal::BigDecimal>() {
        Ok(value) => Some((bigdecimal::BigDecimal::from(100) - value).to_string()),
        Err(_) => None,
    }
}

/// The quota read of a window once every sample was pushed.
#[derive(Debug)]
pub struct Range {
    pub latest: Option<Observation>,
    pub segments: Vec<Interval>,
    pub total_segments: u64,
    pub recent: Interval,
    pub unmatched_cost: Option<Cost>,
}


/// Whether an optional sample lies strictly after the window's start.
pub open spec fn after_start(sample: Option<Sample>, start: Time) -> bool {
    sample matches Some(x) ==> time_lt(start, x.time)
}

/// Whether a segment holds only samples after the window's start.
pub open spec fn segment_within(segment: Segment, start: Time) -> bool {
    after_start(segment.first, start) && after_start(segment.last, start)
}

/// Whether every sample the window holds, in its segments, its closed intervals
/// and as its latest sample, lies strictly after the window's start: the window
/// never borrows an endpoint from outside itself.
pub open spec fn within(quota: SelectedQuota) -> bool {
    &&& segment_within(quota.current, quota.start)
    &&& segment_within(quota.recent, quota.start)
    &&& after_start(quota.latest, quota.start)
    &&& forall|i: int|
        0 <= i < quota.segments@.len() ==> (#[trigger] quota.segments@[i] matches Interval::Matched {
            first,
            last,
            ..
        } ==> time_lt(quota.start, first.time) && time_lt(quota.start, last.time))
}

/// The newest sample after a pass that succeeded: a sample after the window's start that
/// is not an ambiguous observation becomes the newest.
pub open spec fn latest_after(
    latest: Option<Sample>,
    start: Time,
    sample: Option<Sample>,
    time: Time,
    boundary: Option<BoundaryKind>,
) -> Option<Sample> {
    if time_lt(start, time) && boundary != Some(BoundaryKind::AmbiguousObservation) && sample is Some {
        sample
    } else {
        latest
    }
}

/// The last qualifying sample of a sequence of passes (see `latest_after`).
pub open spec fn last_qualifying(start: Time, passes: Seq<(Option<Sample>, Time, Option<BoundaryKind>)>) -> Option<Sample>
    decreases passes.len(),
{
    if passes.len() == 0 {
        None
    } else {
        let (sample, time, boundary) = passes.last();
        latest_after(last_qualifying(start, passes.drop_last()), start, sample, time, boundary)
    }
}

/// The newest sample is the last one that qualified: after a fresh window takes a
/// sequence of passes that all succeeded, its newest sample is the last sample after
/// the start that was not an ambiguous observation, and none when no pass qualified.
pub proof fn law_latest_is_last_qualifying(
    states: Seq<SelectedQuota>,
    passes: Seq<(Option<Sample>, Time, Option<BoundaryKind>)>,
)
    requires
        states.len() == passes.len() + 1,
        states[0].latest is None,
        forall|i: int| 0 <= i < states.len() ==> (#[trigger] states[i]).start == states[0].start,
        forall|i: int| 0 <= i < passes.len() ==> #[trigger] states[i + 1].latest == latest_after(
            states[i].latest,
            states[i].start,
            passes[i].0,
            passes[i].1,
            passes[i].2,
        ),
    ensures
        states.last().latest == last_qualifying(states[0].start, passes),
    decreases passes.len(),
{
    if passes.len() > 0 {
        let n = passes.len() - 1;
        let front = states.take(n + 1);
        assert forall|i: int| 0 <= i < front.len() implies (#[trigger] front[i]).start == front[0].start by {
            assert(front[i] == states[i]);
        }
        assert forall|i: int| 0 <= i < passes.drop_last().len() implies #[trigger] front[i + 1].latest == latest_after(
            front[i].latest,
            front[i].start,
            passes.drop_last()[i].0,
            passes.drop_last()[i].1,
            passes.drop_last()[i].2,
        ) by {
            assert(states[i + 1].latest == latest_after(states[i].latest, states[i].start, passes[i].0, passes[i].1, passes[i].2));
        }
        law_latest_is_last_qualifying(front, passes.drop_last());
        assert(states[n + 1].latest == latest_after(states[n].latest, states[n].start, passes[n].0, passes[n].1, passes[n].2));
    }
}

impl SelectedQuota {
    /// An empty window from `start` (exclusive) to `end`.
    pub fn new(start: Time, end: Time) -> (result: SelectedQuota)
        ensures
            result.start == start,
            result.recent_start == recent_start_of(start, end),
            result.current == empty_segment(),
            result.recent == empty_segment(),
            result.segments@.len() == 0,
            result.count == 0,
            result.latest is None,
            within(result),
    {
        let seconds = if end.seconds < i64::MIN + RECENT_SECONDS {
            i64::MIN
        } else {
            end.seconds - RECENT_SECONDS
        };
        let candidate = Time { seconds, nanos: end.nanos };
        SelectedQuota {
            start,
            recent_start: if start.before(&candidate) { candidate } else { start },
            current: Segment::default(),
            recent: Segment::default(),
            segments: Vec::new(),
            count: 0,
            latest: None,
        }
    }

    /// Ends the current segment at a boundary: a segment with samples is counted
    /// and kept among the newest fifty; both accumulating segments restart.
    pub fn close(&mut self)
        requires
            old(self).count < u64::MAX,
            old(self).segments@.len() <= MAX_SEGMENTS,
        ensures
            final(self).start == old(self).start,
            final(self).recent_start == old(self).recent_start,
            final(self).latest == old(self).latest,
            final(self).current == empty_segment(),
            final(self).recent == empty_segment(),
            final(self).segments@.len() <= MAX_SEGMENTS,
            old(self).current.first is Some ==> final(self).count == old(self).count + 1
                && closed_onto(old(self).segments@, final(self).segments@, old(self).current),
            old(self).current.first is None ==> final(self).count == old(self).count
                && final(self).segments@ == old(self).segments@,
            within(*old(self)) ==> within(*final(self)),
    {
        let ghost was_within = within(*self);
        if self.current.first.is_some() {
            self.count = self.count + 1;
            if self.segments.len() == MAX_SEGMENTS {
                self.segments.remove(0);
            }
            let ghost kept = self.segments@;
            let interval = self.current.estimate();
            self.segments.push(interval);
            assert(self.segments@.take(kept.len() as int) =~= kept);
            proof {
                if was_within {
                    assert forall|i: int| 0 <= i < self.segments@.len() implies (
                    #[trigger] self.segments@[i] matches Interval::Matched { first, last, .. }
                        ==> time_lt(self.start, first.time) && time_lt(self.start, last.time)) by {
                        if i < kept.len() {
                            if old(self).segments@.len() == MAX_SEGMENTS {
                                assert(kept[i] == old(self).segments@[i + 1]);
                            } else {
                                assert(kept[i] == old(self).segments@[i]);
                            }
                        }
                    }
                }
            }
        }
        self.current = Segment::default();
        self.recent = Segment::default();
    }

    /// Adds the sample observed at `time`, with the boundary it opens and the cost
    /// of the usage since the previous sample. Samples at or before the window's
    /// start are ignored; a boundary closes the current segment; an ambiguous
    /// observation only closes it. A sample extends the current segment, and the
    /// recent one once its time has come; an unreadable cost or an overflowing sum
    /// is a storage fault, leaving the segment it concerns unchanged.
    pub fn push(
        &mut self,
        sample: Option<&Sample>,
        time: Time,
        boundary: Option<BoundaryKind>,
        cost: &Cost,
    ) -> (result: Result<(), crate::weekly::ReadError>)
        requires
            old(self).count < u64::MAX,
            old(self).segments@.len() <= MAX_SEGMENTS,
        ensures
            final(self).start == old(self).start,
            final(self).recent_start == old(self).recent_start,
            final(self).segments@.len() <= MAX_SEGMENTS,
            within(*old(self)) && (sample matches Some(x) ==> x.time == time) ==> within(
                *final(self),
            ),
            !time_lt(old(self).start, time) ==> result is Ok && *final(self) == *old(self),
            result is Ok ==> final(self).latest == latest_after(
                old(self).latest,
                old(self).start,
                match sample { Some(x) => Some(*x), None => None },
                time,
                boundary,
            ),
            time_lt(old(self).start, time) ==> {
                let opened = boundary is Some;
                let current = if opened { empty_segment() } else { old(self).current };
                let recent = if opened { empty_segment() } else { old(self).recent };
                &&& if opened && old(self).current.first is Some {
                    final(self).count == old(self).count + 1 && closed_onto(
                        old(self).segments@,
                        final(self).segments@,
                        old(self).current,
                    )
                } else {
                    final(self).count == old(self).count && final(self).segments@ == old(
                        self,
                    ).segments@
                }
                &&& if boundary == Some(BoundaryKind::AmbiguousObservation) || sample is None {
                    result is Ok && final(self).current == current && final(self).recent
                        == recent && final(self).latest == old(self).latest
                } else {
                    let x = *sample->0;
                    match segment_after(current, x, *cost) {
                        None => result is Err && final(self).current == current
                            && final(self).recent == recent && final(self).latest == old(
                            self,
                        ).latest,
                        Some(c) => final(self).current == c && if time_lt(
                            time,
                            old(self).recent_start,
                        ) {
                            result is Ok && final(self).recent == recent && final(self).latest
                                == Some(x)
                        } else {
                            match segment_after(recent, x, *cost) {
                                None => result is Err && final(self).recent == recent
                                    && final(self).latest == old(self).latest,
                                Some(r) => result is Ok && final(self).recent == r
                                    && final(self).latest == Some(x),
                            }
                        },
                    }
                }
            },
    {
        if !self.start.before(&time) {
            return Ok(());
        }
        if boundary.is_some() {
            self.close();
        }
        if boundary == Some(BoundaryKind::AmbiguousObservation) {
            return Ok(());
        }
        match sample {
            Some(sample) => {
                match self.current.push(sample.copy(), cost) {
                    Ok(()) => {},
                    Err(e) => return Err(e),
                }
                if !time.before(&self.recent_start) {
                    match self.recent.push(sample.copy(), cost) {
                        Ok(()) => {},
                        Err(e) => return Err(e),
                    }
                }
                self.latest = Some(sample.copy());
                Ok(())
            },
            None => Ok(()),
        }
    }

    /// The time of the newest sample.
    pub fn last_time(&self) -> (result: Option<Time>)
        ensures
            result == match self.latest {
                Some(s) => Some(s.time),
                None => None,
            },
    {
        match &self.latest {
            Some(sample) => Some(sample.time),
            None => None,
        }
    }

    /// The window's read: the newest sample as an observation with its remaining
    /// percentage (100 less the used one), the recent interval as it stands, then every
    /// segment closed. A newest sample whose used percentage is not a decimal number is
    /// a storage fault.
    pub fn finish(self, unmatched_cost: Option<Cost>) -> (result: Result<Range, ReadError>)
        requires
            self.count < u64::MAX,
            self.segments@.len() <= MAX_SEGMENTS,
        ensures
            match self.latest {
                None => result matches Ok(r) && r.latest is None,
                Some(s) => match hundred_minus(s.used@) {
                    None => result == Err::<Range, ReadError>(ReadError::Storage),
                    Some(remaining) => result matches Ok(r) && r.latest matches Some(o) && o.time == s.time
                        && o.used_percent@ == s.used@ && o.remaining_percent@ == remaining && o.resets_at == s.reset,
                },
            },
            result matches Ok(r) ==> {
                &&& describes(r.recent, self.recent)
                &&& r.unmatched_cost == unmatched_cost
                &&& r.segments@.len() <= MAX_SEGMENTS
                &&& self.current.first is Some ==> r.total_segments == self.count + 1
                    && closed_onto(self.segments@, r.segments@, self.current)
                &&& self.current.first is None ==> r.total_segments == self.count
                    && r.segments@ == self.segments@
                &&& within(self) ==> {
                    &&& (r.latest matches Some(o) ==> time_lt(self.start, o.time))
                    &&& r.recent matches Interval::Matched { first, last, .. } ==> time_lt(
                        self.start,
                        first.time,
                    ) && time_lt(self.start, last.time)
                    &&& forall|i: int|
                        0 <= i < r.segments@.len() ==> (
                        #[trigger] r.segments@[i] matches Interval::Matched { first, last, .. }
                            ==> time_lt(self.start, first.time) && time_lt(self.start, last.time))
                }
            },
    {
        let mut quota = self;
        let latest = match &quota.latest {
            None => None,
            Some(sample) => match remaining_text(sample.used.as_str()) {
                None => return Err(ReadError::Storage),
                Some(remaining) => Some(Observation {
                    time: sample.time,
                    used_percent: sample.used.clone(),
                    remaining_percent: remaining,
                    resets_at: sample.reset,
                }),
            },
        };
        let recent = quota.recent.estimate();
        quota.close();
        Ok(Range {
            latest,
            segments: quota.segments,
            total_segments: quota.count,
            recent,
            unmatched_cost,
        })
    }
}

} // verus!
