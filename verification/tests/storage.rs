use codex_usage::storage::aggregates::{CostSum, INVALID_SUBTOTAL};
use codex_usage::storage::{
    snapshot, SnapshotFacts,
    fingerprint, fingerprint_prefix, must_restart, read_batch, validate_progress, verification_failed,
    Error, SourceProgress,
};

fn progress() -> SourceProgress {
    SourceProgress {
        offset: 0,
        ordinal: 0,
        known_size: 0,
        tail_length: 0,
        tail_discarding: false,
        verification_start: 0,
        verification_length: 0,
        verification_hash: None,
    }
}

#[test]
fn stored_progress_must_be_internally_consistent() {
    assert_eq!(validate_progress(&progress()), Ok(()));
    let ahead = SourceProgress { offset: 10, known_size: 5, ..progress() };
    assert_eq!(validate_progress(&ahead), Err(Error::RecoveryMetadata));
    let digestless = SourceProgress { known_size: 10, verification_length: 4, ..progress() };
    assert_eq!(validate_progress(&digestless), Err(Error::RecoveryMetadata));
    let window = SourceProgress { known_size: 10, verification_length: 4, verification_start: 6, verification_hash: Some([7; 32]), ..progress() };
    assert_eq!(validate_progress(&window), Ok(()));
    let discarding = SourceProgress { tail_discarding: true, ..progress() };
    assert_eq!(validate_progress(&discarding), Err(Error::RecoveryMetadata));
    assert_eq!(Error::RecoveryMetadata.message(), "Invalid source recovery metadata");
}

#[test]
fn sources_restart_when_replaced_truncated_or_unverified() {
    let identity = "unix:1:2".to_string();
    assert!(!must_restart(&Some(identity.clone()), &identity, 10, 10, false));
    assert!(must_restart(&Some("unix:1:3".into()), &identity, 10, 10, false));
    assert!(must_restart(&None, &identity, 9, 10, false));
    assert!(must_restart(&None, &identity, 10, 10, true));
    assert!(!must_restart(&None, &identity, 11, 10, false));
}

#[test]
fn batches_split_records_and_resume_an_unfinished_tail() {
    let start = SourceProgress { offset: 0, tail_length: 3, ..progress() };
    let batch = read_batch(start, b"{\"a".to_vec(), b"\":1}\n{}\npart", 100).unwrap();
    assert_eq!(batch.lines.len(), 2);
    assert_eq!(batch.lines[0].bytes.as_deref(), Some(&b"{\"a\":1}\n"[..]));
    assert_eq!((batch.lines[0].start, batch.lines[0].end, batch.lines[0].ordinal), (0, 8, 1));
    assert_eq!((batch.lines[1].start, batch.lines[1].end, batch.lines[1].ordinal), (8, 11, 2));
    assert_eq!(batch.cursor, 15);
    assert_eq!(batch.progress.offset, 11);
    assert_eq!(batch.progress.tail_length, 4);
    assert_eq!(batch.progress.known_size, 100);
    assert_eq!(batch.progress.verification_length, 15);
    assert_eq!(batch.progress.verification_start, 0);
}

#[test]
fn batches_stop_at_the_line_limit_and_skip_oversized_records() {
    let many = b"{}\n".repeat(70);
    let batch = read_batch(progress(), Vec::new(), &many, 210).unwrap();
    assert_eq!(batch.lines.len(), 64);
    assert_eq!(batch.cursor, 192);
    let mut long = vec![b'x'; 2 * 1024 * 1024 + 10];
    long.push(b'\n');
    long.extend_from_slice(b"{}\n");
    let batch = read_batch(progress(), Vec::new(), &long, 0).unwrap();
    assert_eq!(batch.lines.len(), 2);
    assert!(batch.lines[0].bytes.is_none());
    assert_eq!(batch.lines[1].bytes.as_deref(), Some(&b"{}\n"[..]));
    assert_eq!(batch.progress.verification_length, 4096);
    assert_eq!(batch.progress.verification_start, batch.cursor - 4096);
    let full = SourceProgress { ordinal: i64::MAX, ..progress() };
    assert_eq!(read_batch(full, Vec::new(), b"{}\n", 3).unwrap_err(), Error::Offset);
}

#[test]
fn fingerprints_digest_the_prefix_and_window_together() {
    let expected: [u8; 32] = [
        0xba, 0x78, 0x16, 0xbf, 0x8f, 0x01, 0xcf, 0xea, 0x41, 0x41, 0x40, 0xde, 0x5d, 0xae, 0x22,
        0x23, 0xb0, 0x03, 0x61, 0xa3, 0x96, 0x17, 0x7a, 0x9c, 0xb4, 0x10, 0xff, 0x61, 0xf2, 0x00,
        0x15, 0xad,
    ];
    assert_eq!(fingerprint(b"ab", b"c"), expected);
    assert_eq!(fingerprint(b"", b"abc"), expected);
    assert_eq!(fingerprint_prefix(10), 10);
    assert_eq!(fingerprint_prefix(10_000), 4096);
    let mut progress = SourceProgress {
        offset: 4,
        ordinal: 1,
        known_size: 4,
        tail_length: 0,
        tail_discarding: false,
        verification_start: 1,
        verification_length: 3,
        verification_hash: Some(expected),
    };
    assert!(!verification_failed(&progress, Some(expected)));
    assert!(verification_failed(&progress, Some([0; 32])));
    assert!(verification_failed(&progress, None));
    progress.verification_hash = None;
    assert!(verification_failed(&progress, None));
    progress.offset = 0;
    assert!(!verification_failed(&progress, None));
}

#[test]
fn snapshots_explain_coverage_and_the_most_relevant_diagnostic() {
    let facts = |selected: bool, total: Option<i64>, unresolved: bool| SnapshotFacts {
        selected: selected.then(|| (String::from("thread"), Some(String::from("2026-01-01T00:00:00Z")))),
        diagnostic: None,
        partial: false,
        thread_diagnostic: None,
        unresolved,
        total,
        legacy: false,
    };
    let empty = snapshot(facts(false, None, false));
    assert_eq!(empty.coverage, "Unavailable — waiting for supported modern usage");
    assert!(empty.diagnostic.is_none());
    let observed = snapshot(facts(true, Some(42), false));
    assert_eq!(observed.direct_tokens.as_deref(), Some("42"));
    assert_eq!(observed.coverage, "Observed direct usage only; history may be incomplete");
    let pending = snapshot(facts(true, None, true));
    assert_eq!(
        pending.coverage,
        "Direct usage unavailable; observations are pending or unsupported"
    );
    let mut halted = facts(true, Some(1), true);
    halted.thread_diagnostic = Some(String::from("Source accounting stopped after an unsupported record"));
    halted.diagnostic = Some(String::from("older source diagnostic"));
    assert_eq!(
        snapshot(halted).diagnostic.as_deref(),
        Some("Some historical usage remains unavailable until its source is replayed and validated")
    );
    let mut legacy = facts(false, None, false);
    legacy.legacy = true;
    legacy.partial = true;
    assert_eq!(
        snapshot(legacy).diagnostic.as_deref(),
        Some("Legacy-only counters are not supported; usage unavailable")
    );
    let mut partial = facts(false, None, false);
    partial.partial = true;
    assert_eq!(
        snapshot(partial).diagnostic.as_deref(),
        Some("Waiting for an incomplete trailing line to finish")
    );
}

#[test]
fn cost_sums_add_canonical_amounts_exactly() {
    use_cost_sum();
}

fn use_cost_sum() {
    let mut sum = CostSum::init();
    assert_eq!(sum.step(None), Ok(()));
    assert_eq!(sum.sum, None);
    assert_eq!(sum.step(Some("170141183460469231731687303715884105000")), Ok(()));
    assert_eq!(sum.step(Some("727")), Ok(()));
    assert_eq!(sum.finalize(), Some(String::from("170141183460469231731687303715884105727")));
    assert_eq!(sum.step(Some("1")), Err(INVALID_SUBTOTAL));
    assert_eq!(sum.sum, Some(i128::MAX));
    let mut other = CostSum::init();
    assert_eq!(other.step(Some("-1")), Err(INVALID_SUBTOTAL));
    assert_eq!(other.step(Some("007")), Err(INVALID_SUBTOTAL));
    assert_eq!(other.finalize(), None);
}
