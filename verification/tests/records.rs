use codex_usage::adapter::{Context, Counter, Metadata, Tokens, Usage};
use codex_usage::storage::records::{
    context_evidence, duplicate_action, metadata_evidence, model_conflict, retired,
    split_location_evidence, usage_validation, Duplicate,
};

fn known(values: [i64; 6]) -> Tokens {
    Tokens {
        input_tokens: Counter::Known(values[0]),
        cached_input_tokens: Counter::Known(values[1]),
        cache_write_input_tokens: Counter::Known(values[2]),
        output_tokens: Counter::Known(values[3]),
        reasoning_output_tokens: Counter::Known(values[4]),
        total_tokens: Counter::Known(values[5]),
    }
}

fn usage(thread: &str) -> Usage {
    Usage {
        thread_id: thread.into(),
        session_id: None,
        turn_id: Some("t".into()),
        root_turn_id: None,
        response_id: None,
        usage: known([10, 0, 0, 5, 0, 15]),
        thread_token_usage: known([10, 0, 0, 5, 0, 15]),
    }
}

#[test]
fn metadata_contributes_parents_location_and_version_in_order() {
    let meta = Metadata {
        id: "child".into(),
        session_id: None,
        parent_thread_id: Some("root".into()),
        nested_parent_thread_id: Some("spawner".into()),
        cwd: Some("/work".into()),
        workspace_roots: Some(vec!["/work".into(), String::new(), "/other".into()]),
        cli_version: Some(String::new()),
        spawn_parent: None,
    };
    let rows: Vec<(&str, String, &str)> = metadata_evidence(&meta)
        .into_iter()
        .map(|e| (e.kind, e.value, e.origin))
        .collect();
    assert_eq!(
        rows,
        vec![
            ("parent", String::from("root"), "session_meta.parent_thread_id"),
            (
                "parent",
                String::from("spawner"),
                "session_meta.source.subagent.thread_spawn.parent_thread_id"
            ),
            ("cwd", String::from("/work"), "session_meta"),
            ("workspace_root", String::from("/work"), "session_meta"),
            ("workspace_root", String::from("/other"), "session_meta"),
        ]
    );
    let context = Context {
        turn_id: "t".into(),
        model: None,
        cwd: None,
        workspace_roots: Some(vec!["/r".into()]),
    };
    let rows = context_evidence(&context);
    assert_eq!(rows.len(), 1);
    assert_eq!(rows[0].origin, "turn_context");
    let (cwds, roots) = split_location_evidence(vec![
        ("cwd".into(), "/a".into()),
        ("workspace_root".into(), "/r".into()),
        ("cwd".into(), "/b".into()),
    ]);
    assert_eq!(cwds, vec![String::from("/a"), String::from("/b")]);
    assert_eq!(roots, vec![String::from("/r")]);
}

#[test]
fn replayed_usage_is_a_duplicate_only_when_identical() {
    let ts = "2026-01-01T00:00:00Z";
    let valid = usage_validation(false, Some("thread"), &usage("thread"), ts);
    assert_eq!(valid, Ok(false));
    assert_eq!(
        usage_validation(true, None, &usage("thread"), ts),
        Err("Source accounting stopped after an unsupported record")
    );
    assert_eq!(
        usage_validation(false, Some("other"), &usage("thread"), ts),
        Err("Metadata and direct thread identity conflict")
    );
    assert_eq!(
        usage_validation(false, None, &usage("thread"), "yesterday"),
        Err("Invalid usage timestamp")
    );
    assert_eq!(
        duplicate_action("{}", ts, "pending", "{\"a\":1}", ts, valid, None, "thread"),
        Duplicate::Conflict
    );
    assert_eq!(
        duplicate_action("{}", "2026-01-01T01:00:00+01:00", "pending", "{}", ts, valid, None, "thread"),
        Duplicate::Reconcile
    );
    assert_eq!(
        duplicate_action("{}", "2026-01-01T00:00:01Z", "pending", "{}", ts, valid, None, "thread"),
        Duplicate::Conflict
    );
    assert_eq!(
        duplicate_action("{}", ts, "rejected", "{}", ts, Err("halt"), None, "thread"),
        Duplicate::Halt("halt")
    );
    assert_eq!(
        duplicate_action("{}", ts, "rejected", "{}", ts, valid, Some("thread"), "thread"),
        Duplicate::Recover
    );
    assert_eq!(
        duplicate_action("{}", ts, "accepted", "{}", ts, valid, Some("thread"), "thread"),
        Duplicate::Keep
    );
}

#[test]
fn model_conflicts_and_retired_records() {
    assert!(!model_conflict(&None, &Some("m".into())));
    assert!(!model_conflict(&Some(Some("m".into())), &Some("m".into())));
    assert!(model_conflict(&Some(Some("m".into())), &Some("n".into())));
    assert!(model_conflict(&Some(None), &Some("n".into())));
    assert!(!model_conflict(&Some(None), &None));
    assert!(retired(Some("2024-01-01T00:00:00Z"), Some((1_704_067_201, 0))));
    assert!(!retired(Some("2024-01-01T00:00:00Z"), Some((1_704_067_200, 0))));
    assert!(!retired(None, Some((i64::MAX, 0))));
    assert!(!retired(Some("2024-01-01T00:00:00Z"), None));
}
