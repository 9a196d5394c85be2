use codex_usage::monitor::{EventKind, EventPath, Unit, Work, QUEUE_LIMIT};

fn file(path: &str) -> EventPath {
    EventPath {
        path: path.into(),
        is_dir: false,
    }
}

fn work() -> Work {
    Work::new("/home/u/.codex/")
}

const ROLLOUT: &str = "/home/u/.codex/sessions/2026/01/01/rollout-a.jsonl";

#[test]
fn a_new_coordinator_watches_both_session_trees() {
    let w = work();
    assert_eq!(
        w.roots,
        vec![
            String::from("/home/u/.codex/sessions"),
            String::from("/home/u/.codex/archived_sessions")
        ]
    );
    assert_eq!(w.discoveries, 1);
    assert!(w.busy());
    assert_eq!(
        w.progress(true),
        "Importing / recovering history · 0 files discovered · 0 read batches · 0 queued files"
    );
}

#[test]
fn rollout_changes_wait_out_their_first_deadline() {
    let mut w = work();
    assert!(w.event(EventKind::Modify, vec![file(ROLLOUT)], false, 1000).is_empty());
    assert_eq!(w.deadline(), Some(1075));
    w.event(EventKind::Modify, vec![file(ROLLOUT)], false, 1050);
    assert_eq!(w.deadline(), Some(1075));
    w.event(EventKind::Modify, vec![file("/elsewhere/rollout-b.jsonl")], false, 1050);
    w.event(EventKind::Access, vec![file("/home/u/.codex/sessions/rollout-c.jsonl")], false, 1050);
    assert_eq!(w.debounce.len(), 1);
    assert_eq!(w.begin(1074), None);
    assert!(w.reads.is_empty());
    assert_eq!(w.begin(1075), None);
    assert_eq!(w.reads, vec![String::from(ROLLOUT)]);
    assert_eq!(w.deadline(), None);
}

#[test]
fn directories_start_discovery_and_removals_request_a_sweep() {
    let mut w = work();
    w.sweep_started(None);
    assert!(!w.sweep_requested);
    let started = w.event(
        EventKind::Create,
        vec![EventPath {
            path: "/home/u/.codex/sessions/2026/02/".into(),
            is_dir: true,
        }],
        false,
        0,
    );
    assert_eq!(started, vec![String::from("/home/u/.codex/sessions/2026/02")]);
    assert_eq!(w.discoveries, 2);
    w.event(EventKind::Remove, vec![file("/home/u/.codex/sessions/2026/03")], false, 0);
    assert!(w.sweep_requested);
    w.event(EventKind::Other, vec![], true, 0);
    assert!(w.recovery);
    assert_eq!(
        w.diagnostic.as_deref(),
        Some("Native watcher requested source recovery")
    );
}

#[test]
fn lanes_take_turns_and_full_queues_recover() {
    let mut w = work();
    assert_eq!(w.next_unit(), Unit::Discover);
    w.discovered_paths(vec![String::from("/a"), String::from("/b"), String::from("/a")], false, true);
    assert_eq!(w.discoveries, 0);
    assert_eq!(w.discovered, 3);
    assert_eq!(w.reads, vec![String::from("/a"), String::from("/b")]);
    assert_eq!(w.next_unit(), Unit::Read(String::from("/a")));
    w.read_finished(String::from("/a"), Ok(true));
    assert_eq!(w.reads, vec![String::from("/b"), String::from("/a")]);
    assert_eq!(w.next_unit(), Unit::Reconcile);
    w.reconciled(false);
    assert_eq!(w.next_unit(), Unit::Sweep);
    w.sweep_started(Some(String::from("/z")));
    w.sweep_page(3, Some(String::from("/c")));
    assert!(!w.sweeping);
    assert_eq!(w.next_unit(), Unit::Read(String::from("/b")));
    w.read_finished(String::from("/b"), Err(String::from("Source could not be read")));
    assert_eq!(w.diagnostic.as_deref(), Some("Source could not be read"));
    let mut full = work();
    for n in 0..QUEUE_LIMIT {
        full.enqueue(format!("/f{n}"));
    }
    assert!(!full.recovery);
    full.enqueue(String::from("/overflow"));
    assert!(full.recovery);
    assert_eq!(full.reads.len(), QUEUE_LIMIT);
}

#[test]
fn a_finished_recovery_clears_its_notice() {
    let mut w = work();
    w.recover("Monitoring resumed; recovering available files");
    w.discoveries = 0;
    w.reconcile = false;
    w.sweep_requested = false;
    assert_eq!(w.begin(0), Some(w.roots.clone()));
    assert_eq!(w.discoveries, 1);
    assert_eq!(w.next_unit(), Unit::Discover);
    w.discovered_paths(vec![], false, true);
    w.sweep_started(None);
    assert_eq!(w.next_unit(), Unit::Cleared);
    assert!(w.diagnostic.is_none());
    assert_eq!(w.next_unit(), Unit::Idle);
    assert_eq!(
        w.progress(false),
        "Waiting for Codex source directories · 0 files discovered · 0 read batches · 0 queued files"
    );
}
