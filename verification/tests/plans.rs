use codex_usage::source::sessions_directory;
use codex_usage::storage::{batch_reads, Error, SourceProgress, MAX_LINE, READ_BUDGET};
use codex_usage::adapter::{Context, Metadata, Record};
use codex_usage::dashboard::{Query, Range};
use codex_usage::identity::{
    common_source, directory_value_ok, gitdir_target, pointer_value, repository_proof, root_accepted,
    CommonSource,
};
use codex_usage::monitor::{writer_step, Wait, Writer, WriterEvent};
use codex_usage::settings::{check_override, resolve, Config};
use codex_usage::source::{automatic_directory, extended_prefix_stripped, parent_directory, platform_normalized_path};
use codex_usage::storage::dashboard::models::{model_costs, rank_models, Row};
use codex_usage::text::text_less;
use codex_usage::storage::dashboard::turns::{bin_count, rank_series, turn_bin, turn_series, Point, Series};
use codex_usage::storage::dashboard::{breakdown_label, chart_start, first_inclusive, CostGroups};
use codex_usage::storage::records::{record_step, RecordPlan, StoredFacts};
use codex_usage::weekly::{Cost, ReadError, Time};

fn stored(thread: Option<&str>) -> StoredFacts {
    StoredFacts { thread: thread.map(str::to_string), turn_model: None, floor: None, halted: false }
}

fn meta(id: &str) -> Metadata {
    Metadata {
        id: id.into(),
        session_id: None,
        parent_thread_id: Some("parent".into()),
        nested_parent_thread_id: None,
        cwd: Some("/work".into()),
        workspace_roots: None,
        cli_version: None,
        spawn_parent: None,
    }
}

#[test]
fn record_plans_follow_each_record_kind() {
    match record_step(&stored(Some("a")), &Ok(Record::Metadata(meta("b")))) {
        RecordPlan::Diagnostic { message, halts } => {
            assert_eq!(message, "Conflicting direct session identity");
            assert!(halts);
        }
        other => panic!("{other:?}"),
    }
    match record_step(&stored(None), &Ok(Record::Metadata(meta("b")))) {
        RecordPlan::Metadata { thread, evidence } => {
            assert_eq!(thread, "b");
            assert_eq!(evidence.len(), 2);
            assert_eq!(evidence[0].kind, "parent");
            assert_eq!(evidence[1].value, "/work");
        }
        other => panic!("{other:?}"),
    }
    let mut facts = stored(Some("a"));
    facts.turn_model = Some(Some("gpt-a".into()));
    let context = Context { turn_id: "t".into(), model: Some("gpt-b".into()), cwd: None, workspace_roots: None };
    match record_step(&facts, &Ok(Record::Context(context))) {
        RecordPlan::Context { thread, conflict, .. } => {
            assert_eq!(thread.as_deref(), Some("a"));
            assert!(conflict);
        }
        other => panic!("{other:?}"),
    }
    match record_step(&stored(None), &Ok(Record::UnsupportedEnvelope)) {
        RecordPlan::Diagnostic { message, halts } => {
            assert_eq!(message, "Unrecognized envelope skipped; only supported modern usage is shown");
            assert!(!halts);
        }
        other => panic!("{other:?}"),
    }
    let mut retired = stored(None);
    retired.floor = Some((2_000_000_000, 0));
    let legacy = Record::Legacy { timestamp: Some("2026-01-01T00:00:00Z".into()), windows: Vec::new() };
    assert!(matches!(record_step(&retired, &Ok(legacy)), RecordPlan::Legacy { retired: true }));
    assert!(matches!(record_step(&stored(None), &Ok(Record::Ignore)), RecordPlan::Nothing));
    assert!(matches!(
        record_step(&stored(None), &Err("Invalid event envelope")),
        RecordPlan::Diagnostic { message: "Invalid event envelope", halts: true }
    ));
}

fn t(seconds: i64, nanos: u32) -> Time {
    Time { seconds, nanos }
}

#[test]
fn chart_ranges_start_without_quota_and_include_the_first_observation() {
    assert_eq!(first_inclusive(Some(t(10, 5)), t(20, 0)), Some(t(10, 4)));
    assert_eq!(first_inclusive(Some(t(10, 0)), t(20, 0)), Some(t(9, 999_999_999)));
    assert_eq!(first_inclusive(Some(t(30, 0)), t(20, 0)), None);
    let query = Query { range: Range::CurrentCycle, point_budget: None, breakdown_metric: Default::default() };
    assert_eq!(chart_start(&query, t(1_000_000, 3), None, None), t(1_000_000 - 604_800, 3));
    assert_eq!(chart_start(&query, t(1_000_000, 3), Some(t(5, 0)), None), t(5, 0));
}

fn cost(subtotal: Option<&str>, complete: bool, accepted: u64) -> Cost {
    Cost { known_subtotal: subtotal.map(str::to_string), complete, accepted_observations: accepted }
}

#[test]
fn interval_costs_merge_groups_in_chronological_order() {
    let mut groups = CostGroups {
        groups: vec![
            (t(1, 0), cost(Some("5"), true, 1)),
            (t(2, 0), cost(None, false, 2)),
            (t(5, 0), cost(Some("-2"), true, 1)),
        ],
        next: 0,
    };
    let first = groups.interval(t(2, 0)).unwrap();
    assert_eq!(first.known_subtotal.as_deref(), Some("5"));
    assert!(!first.complete);
    assert_eq!(first.accepted_observations, 3);
    let empty = groups.interval(t(3, 0)).unwrap();
    assert_eq!(empty.known_subtotal.as_deref(), Some("0"));
    assert_eq!(empty.accepted_observations, 0);
    let last = groups.interval(t(9, 0)).unwrap();
    assert_eq!(last.known_subtotal.as_deref(), Some("-2"));
    let mut broken = CostGroups { groups: vec![(t(1, 0), cost(Some("1.5"), true, 1))], next: 0 };
    assert_eq!(broken.interval(t(1, 0)).unwrap_err(), ReadError::Storage);
}

fn model(name: &str, priced: i64, stored: i128, total: i64) -> (String, Row) {
    let mut row = Row::new();
    row.sums[0] = Some(total);
    row.known = [1, 1, 1, 1, 1, 1];
    row.accepted = 1;
    row.priced = priced;
    row.stored = stored;
    (name.to_string(), row)
}

#[test]
fn model_breakdown_ranks_and_folds_the_remainder() {
    assert!(text_less("model:a", "model:b"));
    assert!(!text_less("model:b", "model:b"));
    let mut rows = vec![model("model:unpriced", 0, 0, 1_000), model("model:cheap", 1, 5, 10)];
    for index in 0..9 {
        rows.push(model(&format!("model:m{index}"), 1, 100 + index as i128, 1));
    }
    let ranked = rank_models(rows);
    assert_eq!(ranked[0].0, "model:m8");
    assert_eq!(ranked[9].0, "model:cheap");
    assert_eq!(ranked[10].0, "model:unpriced");
    let costs = model_costs(ranked, Some(Row::new()));
    assert_eq!(costs.len(), 10);
    assert_eq!(costs[0].label, "m8");
    assert_eq!(costs[8].key, "other:");
    assert_eq!(costs[8].label, "Other models (3)");
    assert_eq!(costs[8].accepted_observations, 3);
    assert_eq!(costs[8].estimated_cost.known_subtotal.as_deref(), Some("105"));
    assert!(!costs[8].estimated_cost.complete);
    assert_eq!(costs[9].key, "unknown:");
    assert_eq!(costs[9].label, "Unknown model");
}

fn series(turns: u64, bin: u32) -> Series {
    let point = Point { turns, accepted: 1, total: Some(10), known: 1, stored: 0, priced: 0 };
    Series { model: Some("m".into()), effort: None, totals: point, sessions: Some(1), points: vec![(bin, point)] }
}

#[test]
fn turn_series_rank_bin_and_fold() {
    assert_eq!(bin_count(0), 1);
    assert_eq!(bin_count(500), 96);
    assert_eq!(turn_bin(0, 100, 4, 25), 0);
    assert_eq!(turn_bin(0, 100, 4, 26), 1);
    assert_eq!(turn_bin(0, 100, 4, 0), 0);
    assert_eq!(turn_bin(0, 100, 4, 1_000), 3);
    let mut rows = Vec::new();
    for index in 0..9u64 {
        rows.push((format!("model:m|effort:{index}"), series(index + 1, (index % 2) as u32)));
    }
    let ranked = rank_series(rows);
    assert_eq!(ranked[0].0, "model:m|effort:8");
    let shown = turn_series(ranked, Some(series(1, 0)));
    assert_eq!(shown.len(), 9);
    assert_eq!(shown[0].label, "m \u{b7} reasoning unavailable");
    assert_eq!(shown[7].key, "other:");
    assert_eq!(shown[7].label, "Other combinations (2)");
    assert_eq!(shown[7].turns, 3);
    assert_eq!(shown[7].points.len(), 2);
    assert_eq!(shown[7].observed_sessions, None);
    assert_eq!(shown[8].kind, "unattributed");
}

#[test]
fn writer_publishes_at_most_every_interval() {
    let start = Writer::new(1_000);
    let event = |changed, now, busy| WriterEvent { changed, now, busy, work_deadline: None, retention_deadline: Some(5_000) };
    let (state, action) = writer_step(start, event(false, 1_000, false));
    assert!(action.publish);
    assert_eq!(action.wait, Wait::Until(5_000));
    let (state, action) = writer_step(state, event(true, 1_050, false));
    assert!(!action.publish);
    assert_eq!(action.wait, Wait::Until(1_100));
    let (_, action) = writer_step(state, event(false, 1_100, true));
    assert!(action.publish);
    assert_eq!(action.wait, Wait::Continue);
}

#[test]
fn directories_and_repository_pointers() {
    assert_eq!(parent_directory("/home/a/.codex/sessions/").as_deref(), Some("/home/a/.codex"));
    assert_eq!(parent_directory("/sessions").as_deref(), Some("/"));
    assert_eq!(parent_directory("/"), None);
    assert_eq!(automatic_directory(None), None);
    assert_eq!(pointer_value("gitdir: /repo/.git/worktrees/a\r\n").as_deref(), Some("gitdir: /repo/.git/worktrees/a"));
    assert_eq!(pointer_value("\n"), None);
    assert_eq!(pointer_value("a\nb\n"), None);
    assert_eq!(gitdir_target("gitdir: ../x"), Some("../x"));
    assert_eq!(gitdir_target("../x"), None);
    assert!(directory_value_ok("x"));
    assert!(!directory_value_ok(""));
    assert!(root_accepted("/repo", false));
    assert!(!root_accepted("repo", false));
    assert!(root_accepted(r"D:\repo", true));
    assert!(!root_accepted("/repo", true));
    assert_eq!(common_source(Some(false), true), CommonSource::Unresolved);
    assert_eq!(common_source(Some(false), false), CommonSource::Admin);
    assert_eq!(common_source(Some(true), true), CommonSource::Pointer);
    let proof = repository_proof(Some("/repo/.git".into()));
    assert_eq!((proof.common_directory.as_deref(), proof.state), (Some("/repo/.git"), "confirmed"));
    assert_eq!(repository_proof(Some("x".repeat(4097))).state, "unresolved");
}

#[test]
fn settings_resolve_the_monitored_directory() {
    assert!(check_override("/codex", false).is_ok());
    assert_eq!(check_override("codex", false).unwrap_err().code, "invalid_directory");
    let config = Config { codex_directory_override: Some("/codex/".into()), ..Config::default() };
    let (view, monitored) = resolve(config, Some("/auto".into()), Some("/codex".into()), false).unwrap();
    assert_eq!(monitored.as_deref(), Some("/codex"));
    assert_eq!(view.automatic_directory.as_deref(), Some("/auto"));
    let (_, monitored) = resolve(Config::default(), Some("/auto".into()), None, false).unwrap();
    assert_eq!(monitored.as_deref(), Some("/auto"));
    let relative = Config { codex_directory_override: Some("codex".into()), ..Config::default() };
    assert_eq!(resolve(relative, None, None, false).unwrap_err().code, "invalid_directory");
    let invalid = Config { close_to_tray: true, ..Config::default() };
    assert_eq!(resolve(invalid, None, None, false).unwrap_err().code, "invalid_settings");
}

#[test]
fn settings_accept_windows_absolute_overrides() {
    assert!(check_override(r"C:\Users\me\.codex", true).is_ok());
    assert!(check_override("c:/Users/me/.codex", true).is_ok());
    assert!(check_override(r"\\server\share\codex", true).is_ok());
    assert!(check_override(r"\\?\C:\codex", true).is_ok());
    assert!(check_override(r"\\.\pipe", true).is_ok());
    assert!(check_override(r"C:codex", true).is_err());
    assert!(check_override(r"\codex", true).is_err());
    assert!(check_override(r"\\server", true).is_err());
    assert!(check_override("/codex", true).is_err());
    assert!(check_override(r"C:\codex", false).is_err());
    let config = Config { codex_directory_override: Some(r"C:\codex".into()), ..Config::default() };
    let (_, monitored) = resolve(config, None, Some(r"C:\codex".into()), true).unwrap();
    assert_eq!(monitored.as_deref(), Some(r"C:\codex"));
}

#[test]
fn extended_prefixes_are_removed_on_windows() {
    assert_eq!(extended_prefix_stripped(r"\\?\UNC\server\share\x"), r"\\server\share\x");
    assert_eq!(extended_prefix_stripped(r"\\?\C:\Users\me"), r"C:\Users\me");
    assert_eq!(extended_prefix_stripped(r"C:\Users\me"), r"C:\Users\me");
    assert_eq!(platform_normalized_path(r"\\?\C:\Users\me", true), r"C:\Users\me");
    assert_eq!(platform_normalized_path(r"\\?\C:\Users\me", false), r"\\?\C:\Users\me");
    assert_eq!(platform_normalized_path("/a//b/./c/", false), "/a/b/c");
}

#[test]
fn breakdown_rows_are_labelled_by_kind() {
    assert_eq!(breakdown_label("unknown:", true), ("Unknown model".to_string(), "unknown"));
    assert_eq!(breakdown_label("unknown:", false), ("Unattributed project".to_string(), "unknown"));
    assert_eq!(breakdown_label("other:", false), ("Other projects".to_string(), "other"));
    assert_eq!(breakdown_label("other:", true), ("Other models".to_string(), "other"));
    assert_eq!(breakdown_label("model:gpt-5", true), ("gpt-5".to_string(), "model"));
    assert_eq!(breakdown_label("repository:/home/u/proj/.git", false), ("proj".to_string(), "project"));
    assert_eq!(breakdown_label("repository:/home/u/proj/.git/", false), ("proj".to_string(), "project"));
    assert_eq!(breakdown_label("directory:C:\\work\\app\\", false), ("app".to_string(), "project"));
    assert_eq!(breakdown_label("directory:/srv/.git", false), (".git".to_string(), "project"));
}

#[test]
fn sessions_directory_follows_the_environment() {
    assert_eq!(sessions_directory(Some("/c"), Some("/u"), Some("/h")).as_deref(), Some("/c/sessions"));
    assert_eq!(sessions_directory(Some("/c/"), None, None).as_deref(), Some("/c/sessions"));
    assert_eq!(sessions_directory(Some(""), Some("C:\\Users\\a"), Some("/h")).as_deref(), Some("C:\\Users\\a/.codex/sessions"));
    assert_eq!(sessions_directory(None, None, Some("/home/a")).as_deref(), Some("/home/a/.codex/sessions"));
    assert_eq!(sessions_directory(None, None, None), None);
}

#[test]
fn batch_reads_resume_after_the_kept_tail() {
    let progress = SourceProgress {
        offset: 100,
        ordinal: 3,
        known_size: 500,
        tail_length: 20,
        tail_discarding: false,
        verification_start: 0,
        verification_length: 0,
        verification_hash: None,
    };
    let reads = batch_reads(&progress, 500).unwrap();
    assert_eq!((reads.tail, reads.cursor, reads.length), (Some((100, 20)), 120, 380));
    assert_eq!(READ_BUDGET, 256 * 1024);
    let reads = batch_reads(&progress, 10_000_000).unwrap();
    assert_eq!(reads.length, 256 * 1024);
    let discarding = SourceProgress { tail_discarding: true, tail_length: MAX_LINE as u64 + 1, ..progress };
    assert_eq!(batch_reads(&discarding, 50).unwrap().tail, None);
    assert_eq!(batch_reads(&discarding, 50).unwrap().length, 0);
    let oversized = SourceProgress { tail_length: MAX_LINE as u64 + 1, ..progress };
    assert!(matches!(batch_reads(&oversized, 500), Err(Error::RecoveryMetadata)));
    let overflow = SourceProgress { offset: u64::MAX, ..progress };
    assert!(matches!(batch_reads(&overflow, 500), Err(Error::Offset)));
}
