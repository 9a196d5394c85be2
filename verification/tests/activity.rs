use codex_usage::activity::{inferred_paths, AnchorFacts, Entry, IdSet, Notices, Record, Scan};
use codex_usage::calls::Window;
use codex_usage::weekly::Time;

fn entry() -> Entry {
    Entry {
        kind: None,
        turn_id: None,
        turn_id_camel: None,
        role: None,
        call_id: None,
        id: None,
        name: None,
        compaction_response_id: None,
        started_at_ms: None,
        status: None,
        exit_code: None,
        fields: Vec::new(),
        changes: None,
        path: None,
        command: None,
    }
}

fn record(kind: &str, payload: Entry, second: u32) -> Record {
    Record {
        kind: Some(kind.into()),
        timestamp: Some(format!("2026-01-01T00:00:{second:02}Z")),
        payload,
        item: None,
    }
}

fn turn_context() -> Record {
    record("turn_context", Entry { turn_id: Some("t1".into()), ..entry() }, 0)
}

fn tool_call() -> Record {
    record(
        "response_item",
        Entry {
            kind: Some("function_call".into()),
            call_id: Some("c1".into()),
            name: Some("shell".into()),
            fields: vec![("arguments".into(), "{\"cmd\":\"ls\"}".into()), ("input".into(), String::new())],
            ..entry()
        },
        1,
    )
}

fn tool_output() -> Record {
    record(
        "response_item",
        Entry {
            kind: Some("function_call_output".into()),
            call_id: Some("c1".into()),
            fields: vec![("output".into(), "x".repeat(500))],
            ..entry()
        },
        2,
    )
}

fn usage() -> Record {
    record("token_usage_record", entry(), 3)
}

fn scan() -> Scan {
    // 2026-01-01T00:00:00Z is 1767225600.
    let window = Window {
        start: Time { seconds: 1_767_225_599, nanos: 0 },
        end: Time { seconds: 1_767_229_200, nanos: 0 },
    };
    Scan::new(window, AnchorFacts { offset: 300, size: 500, turn_id: Some("t1".into()), response_id: None })
}

#[test]
fn scan_locates_the_batch_then_links_calls_and_results() {
    let mut scan = scan();
    assert!(scan.inspect(Some(&turn_context()), 0, 100).is_none());
    assert!(scan.inspect(Some(&tool_call()), 100, 100).is_none());
    assert!(scan.inspect(Some(&tool_output()), 200, 100).is_none());
    assert!(scan.inspect(Some(&usage()), 300, 100).is_none());
    assert!(!scan.locating);
    assert_eq!(scan.offset, 0);
    assert_eq!(scan.association(), "logOrder");
    assert!(scan.notices.is_empty());

    assert!(scan.inspect(Some(&turn_context()), 0, 100).is_none());
    let call = scan.inspect(Some(&tool_call()), 100, 100).unwrap();
    assert_eq!(call.id, "event-100-function_call");
    assert_eq!(call.kind, "function_call");
    assert_eq!(call.label, "shell");
    assert_eq!(call.association, "logOrder");
    assert_eq!(call.parent_id, None);
    assert_eq!(call.fields.len(), 1);
    assert_eq!(call.fields[0].label, "Arguments");
    assert_eq!(call.fields[0].pointer, "/payload/arguments");
    assert_eq!(call.time, Time { seconds: 1_767_225_601, nanos: 0 });

    let result = scan.inspect(Some(&tool_output()), 200, 100).unwrap();
    assert_eq!(result.kind, "toolOutput");
    assert_eq!(result.label, "Tool result");
    assert_eq!(result.association, "itemId");
    assert_eq!(result.parent_id.as_deref(), Some("c1"));
    assert_eq!(result.fields[0].preview.chars().count(), 400);

    // The same event is reported once.
    assert!(scan.inspect(Some(&tool_output()), 200, 100).is_none());
    assert!(scan.inspect(Some(&usage()), 300, 100).is_none());
    assert!(!scan.finished);
    assert!(scan.inspect(Some(&usage()), 400, 100).is_none());
    assert!(scan.finished && scan.next_usage);
    assert!(!scan.more());
}

#[test]
fn malformed_untimed_and_hidden_activity_raise_notices() {
    let mut scan = scan();
    assert!(scan.inspect(None, 0, 10).is_none());
    assert!(scan.notices.malformed);
    scan.inspect(Some(&usage()), 300, 100);
    // No opening turn was seen before the anchor.
    assert!(scan.notices.opening_unknown);
    assert_eq!(scan.association(), "ambiguous");
    let mut late = tool_call();
    late.timestamp = None;
    late.payload.turn_id = Some("t1".into());
    assert!(scan.inspect(Some(&late), 100, 100).is_none());
    assert!(scan.notices.untimed);
    let mut early = tool_call();
    early.timestamp = Some("2025-01-01T00:00:00Z".into());
    early.payload.call_id = Some("c2".into());
    early.payload.turn_id = Some("t1".into());
    assert!(scan.inspect(Some(&early), 100, 100).is_none());
    scan.close_page();
    assert!(scan.notices.hidden);
    assert_eq!(
        scan.notices.texts(),
        vec![
            "Malformed records were skipped; activity coverage is incomplete",
            "Opening call boundary is unavailable; activity is not assigned with certainty",
            "Some related activity has no timestamp and cannot be assigned to the selection",
            "Some related activity is outside the selected interval and is hidden",
        ]
    );
    assert!(!scan.complete());
}

#[test]
fn command_completions_infer_paths_and_attach_to_the_only_open_call() {
    let mut scan = scan();
    scan.inspect(Some(&turn_context()), 0, 100);
    scan.inspect(Some(&usage()), 300, 100);
    scan.inspect(Some(&turn_context()), 0, 100);
    scan.inspect(Some(&tool_call()), 100, 100).unwrap();
    let completion = Record {
        kind: Some("event_msg".into()),
        timestamp: Some("2026-01-01T00:00:05Z".into()),
        payload: Entry { kind: Some("item_completed".into()), turn_id: Some("t1".into()), ..entry() },
        item: Some(Entry {
            kind: Some("CommandExecution".into()),
            id: Some("item-9".into()),
            status: Some("completed".into()),
            command: Some("cat ./src/main.rs (docs/)".into()),
            fields: vec![("command".into(), "cat ./src/main.rs (docs/)".into())],
            ..entry()
        }),
    };
    let event = scan.inspect(Some(&completion), 150, 50).unwrap();
    assert_eq!(event.kind, "CommandExecution");
    assert_eq!(event.label, "Command");
    assert_eq!(event.association, "activeBatch");
    assert_eq!(event.parent_id.as_deref(), Some("c1"));
    assert_eq!(event.status.as_deref(), Some("completed"));
    assert_eq!(event.paths, vec!["./src/main.rs".to_string(), "docs/".to_string()]);
    assert!(event.paths_inferred);
    assert_eq!(event.fields[0].pointer, "/payload/item/command");
}

#[test]
fn inferred_paths_keep_only_path_shaped_arguments() {
    assert_eq!(
        inferred_paths("cat ./a.rs 'C:\\x\\y', -r/x http://a/b\u{3000}(dir/) plain"),
        vec!["./a.rs".to_string(), "C:\\x\\y".to_string(), "dir/".to_string()]
    );
    let many = (0..40).map(|i| format!("d/{i}")).collect::<Vec<_>>().join(" ");
    assert_eq!(inferred_paths(&many).len(), 30);
    assert!(inferred_paths("").is_empty());
}

#[test]
fn pieces_assemble_lines_and_skip_oversized_records() {
    let mut scan = scan();
    assert_eq!(scan.piece_cap(1_000_000), 500);
    assert_eq!(scan.piece_cap(100), 100);
    assert!(scan.take_piece(b"abc").is_none());
    assert_eq!(scan.take_piece(b"def\n"), Some((b"abcdef\n".to_vec(), 0)));
    assert_eq!(scan.offset, 7);
    assert_eq!(scan.take_piece(b"x\n"), Some((b"x\n".to_vec(), 7)));
    let huge = vec![b'a'; 2 * 1024 * 1024 + 1];
    assert!(scan.take_piece(&huge).is_none());
    assert!(scan.notices.oversized);
    assert!(scan.take_piece(b"tail\n").is_none());
    assert!(!scan.discarding);
    assert!(!scan.wants_piece(10, 0));
    assert!(self::scan().wants_piece(10, 0));
    assert!(!self::scan().wants_piece(0, 0));
    assert!(!self::scan().wants_piece(10, 100));
}

#[test]
fn id_sets_hold_each_identity_once() {
    let mut ids = IdSet::new();
    assert!(ids.insert("a".into()));
    assert!(!ids.insert("a".into()));
    assert!(ids.insert("b".into()));
    assert_eq!(ids.len(), 2);
    ids.remove("a");
    assert!(!ids.contains("a"));
    assert_eq!(ids.only().as_deref(), Some("b"));
    assert!(Notices::none().is_empty());
}
