use codex_usage::accounting::{assess_candidate, reconcile, Acceptance, ObservationFacts};
use codex_usage::adapter::{observation_time, Counter, Tokens};
use codex_usage::export::csv_row;
use codex_usage::storage::records::{duplicate_action, Duplicate};

fn tokens(values: [i64; 6]) -> Tokens {
    Tokens {
        input_tokens: Counter::Known(values[0]),
        cached_input_tokens: Counter::Known(values[1]),
        cache_write_input_tokens: Counter::Known(values[2]),
        output_tokens: Counter::Known(values[3]),
        reasoning_output_tokens: Counter::Known(values[4]),
        total_tokens: Counter::Known(values[5]),
    }
}

const BASE: [i64; 6] = [26119, 0, 0, 468, 100, 26587];

/// The n-th record of one thread: the same delta each time, an endpoint n deltas in.
struct Historical {
    usage: Tokens,
    endpoint: Tokens,
    time: (i64, u32),
    source: String,
}

fn historical(sequence: i64) -> Historical {
    Historical {
        usage: tokens(BASE),
        endpoint: tokens(BASE.map(|v| v * sequence)),
        time: (1_767_225_600 + sequence, 0),
        source: format!("source-{sequence}"),
    }
}

fn facts(record: &Historical) -> ObservationFacts<'_> {
    ObservationFacts {
        usage: &record.usage,
        endpoint: &record.endpoint,
        time: record.time,
        source: &record.source,
        generation: 0,
        offset: 0,
    }
}

/// Offers every pending record until none is accepted any more; returns the accepted
/// and the still pending records.
fn settle(records: &[Historical], accepted: &mut Vec<usize>, pending: &mut Vec<usize>) {
    loop {
        let mut progressed = false;
        let mut index = 0;
        while index < pending.len() {
            let candidate = pending[index];
            let anchors: Vec<ObservationFacts<'_>> = accepted.iter().map(|&a| facts(&records[a])).collect();
            match assess_candidate(facts(&records[candidate]), &anchors, false) {
                Acceptance::Accept { .. } => {
                    accepted.push(candidate);
                    pending.remove(index);
                    progressed = true;
                }
                Acceptance::Pending => index += 1,
            }
        }
        if !progressed {
            return;
        }
    }
}

fn totals(records: &[Historical], accepted: &[usize], pending: &[usize]) -> (i64, usize, usize) {
    let total = accepted.iter().map(|&a| records[a].usage.total_tokens.value().unwrap()).sum();
    (total, pending.len(), accepted.len())
}

#[test]
fn historical_arrival_permutations_bridge_both_directions_without_changing_anchors() {
    let records: Vec<Historical> = (0..=3).map(historical).collect();
    for order in [[1, 2, 3], [1, 3, 2], [2, 1, 3], [2, 3, 1], [3, 1, 2], [3, 2, 1]] {
        let mut accepted = Vec::new();
        let mut pending = Vec::new();
        for sequence in order {
            pending.push(sequence);
            settle(&records, &mut accepted, &mut pending);
        }
        assert_eq!(totals(&records, &accepted, &pending), (3 * 26587, 0, 3), "arrival order {order:?}");
        // The first accepted record stays the anchor it was.
        assert_eq!(accepted[0], order[0]);
    }
}

#[test]
fn unresolved_gap_stays_pending_and_duplicate_remains_promotable() {
    let records: Vec<Historical> = (0..=3).map(historical).collect();
    let mut accepted = Vec::new();
    let mut pending = Vec::new();
    for sequence in [3, 1] {
        pending.push(sequence);
        settle(&records, &mut accepted, &mut pending);
    }
    assert_eq!(totals(&records, &accepted, &pending), (26587, 1, 1));
    // A replay of the pending record is the same observation, still to be reconsidered.
    assert_eq!(
        duplicate_action("enc", "2026-01-01T00:00:01Z", "pending", "enc", "2026-01-01T00:00:01Z", Ok(false), None, "t"),
        Duplicate::Reconcile
    );
    pending.push(2);
    settle(&records, &mut accepted, &mut pending);
    assert_eq!(totals(&records, &accepted, &pending), (3 * 26587, 0, 3));
}

#[test]
fn canonical_timestamps_and_equal_time_counter_evidence_are_order_independent() {
    assert_eq!(
        observation_time("2026-01-01T01:00:00+01:00"),
        observation_time("2026-01-01T00:00:00.000000000Z")
    );
    let same = observation_time("2026-01-01T00:00:00Z").unwrap();
    let mut records: Vec<Historical> = (0..=3).map(historical).collect();
    for record in records.iter_mut() {
        record.time = same;
    }
    // Both endpoints are individually valid, but their category vectors cross.
    let mut crossing = BASE.map(|v| v * 3);
    crossing[4] = 0;
    let mut delta = BASE;
    delta[4] = 0;
    records[3].endpoint = tokens(crossing);
    records[3].usage = tokens(delta);
    for order in [[1, 2, 3], [2, 1, 3]] {
        let mut accepted = Vec::new();
        let mut pending = Vec::new();
        for sequence in order {
            pending.push(sequence);
            settle(&records, &mut accepted, &mut pending);
        }
        assert_eq!(totals(&records, &accepted, &pending), (2 * 26587, 1, 2), "arrival order {order:?}");
    }
    assert!(observation_time("2026-99-01T00:00:00Z").is_err());
}

#[test]
fn adapter_drops_content_and_preserves_missing_versus_null_categories() {
    let mut usage = tokens(BASE);
    usage.cached_input_tokens = Counter::Missing;
    assert!(usage.cached_input_tokens.missing());
    assert_eq!(reconcile(&usage, &tokens(BASE), None), Err("Missing reconciliation category; usage unavailable"));
    usage.cached_input_tokens = Counter::Null;
    assert!(!usage.cached_input_tokens.missing());
    assert_eq!(usage.cached_input_tokens.value(), None);
    assert_eq!(reconcile(&tokens(BASE), &usage, None), Err("Missing endpoint category; usage unavailable"));
}

#[test]
fn csv_preserves_quotes_commas_crlf_and_unicode_metadata_without_raw_content() {
    let model = "model,\"雪\"\r\nnext";
    let row = csv_row(&[format!("model:{model}"), "observedModel".to_string(), model.to_string()]);
    assert!(row.contains("\"model:model,\"\"雪\"\"\r\nnext\",observedModel,\"model,\"\"雪\"\"\r\nnext\""), "{row}");
    assert!(row.ends_with("\r\n"));
}
