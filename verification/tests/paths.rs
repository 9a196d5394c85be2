use codex_usage::hierarchy::effective_state;
use codex_usage::settings::{Config, Error};
use codex_usage::source::{is_rollout, normalized_path};

#[test]
fn rollout_logs_are_named_rollout_with_a_jsonl_extension() {
    assert!(is_rollout("/home/u/.codex/sessions/2026/01/01/rollout-abc.jsonl"));
    assert!(is_rollout("rollout-1.jsonl"));
    assert!(!is_rollout("/sessions/rollout-abc.json"));
    assert!(!is_rollout("/sessions/history.jsonl"));
    assert!(!is_rollout("/sessions/rollout-abc.jsonl/.."));
    assert!(is_rollout("/sessions/rollout-abc.jsonl/"));
    assert!(!is_rollout("/"));
}

#[test]
fn normalized_paths_drop_repeated_slashes_and_dot_components() {
    assert_eq!(normalized_path("/a//b/./c/"), "/a/b/c");
    assert_eq!(normalized_path("/"), "/");
    assert_eq!(normalized_path("/a/../b"), "/a/../b");
    assert_eq!(normalized_path("a//b/"), "a/b");
    assert_eq!(normalized_path("./a/./b"), "./a/b");
    assert_eq!(normalized_path("."), ".");
    assert_eq!(normalized_path(""), "");
}

#[test]
fn only_a_cycle_suffix_loses_its_candidate_state() {
    assert_eq!(effective_state("available", 0, None, false), "available");
    assert_eq!(effective_state("available", 1, Some(2), false), "available");
    assert_eq!(effective_state("available", 2, Some(2), false), "cycle");
    assert_eq!(effective_state("available", 3, Some(2), true), "self");
}

#[test]
fn close_to_tray_requires_the_tray() {
    let mut config = Config::default();
    assert!(config.validate().is_ok());
    config.close_to_tray = true;
    let error = config.validate().unwrap_err();
    assert_eq!(error.code, "invalid_settings");
    assert_eq!(error.message, "Enable the tray before choosing close to tray.");
    config.tray_enabled = true;
    assert!(config.validate().is_ok());
    assert_eq!(Error::busy().code, "busy");
    assert_eq!(Error::storage().code, "storage");
    assert_eq!(
        Error::unavailable().message,
        "The tracker is not available yet. Try again shortly."
    );
}

use codex_usage::hierarchy::{classify, job_step, walk_step, Step, Walk};

#[test]
fn hierarchy_job_steps_follow_revision_and_phase() {
    assert_eq!(job_step(2, 1, false, "walk"), Some(Step::Cancel));
    assert_eq!(job_step(2, 1, true, "cleanup"), Some(Step::Cleanup));
    assert_eq!(job_step(1, 1, false, "walk"), Some(Step::Walk));
    assert_eq!(job_step(1, 1, false, "result"), Some(Step::Result));
    assert_eq!(job_step(1, 1, false, "other"), None);
    assert_eq!(walk_step(false, Some(1), None, 3), Walk::Finish);
    assert_eq!(walk_step(true, Some(1), Some(3), 3), Walk::Cycle(1));
    assert_eq!(walk_step(true, None, Some(3), 3), Walk::Finish);
    assert_eq!(walk_step(true, None, Some(2), 3), Walk::Visit);
}

#[test]
fn classification_keeps_parents_only_outside_cycles() {
    assert_eq!(
        classify("child", 0, None, Some("root".into()), "available"),
        (Some(String::from("root")), String::from("available"))
    );
    assert_eq!(
        classify("a", 2, Some(1), Some("b".into()), "available"),
        (None, String::from("cycle"))
    );
    assert_eq!(
        classify("a", 2, Some(1), Some("a".into()), "available"),
        (None, String::from("self"))
    );
    assert_eq!(
        classify("a", 0, None, Some("b".into()), "pending"),
        (None, String::from("pending"))
    );
}

use codex_usage::desktop::{changes, failed_save, rollback, Changes};

#[test]
fn preferences_change_only_what_differs_and_restore_after_failure() {
    let config = Config {
        codex_directory_override: None,
        autostart: true,
        tray_enabled: false,
        close_to_tray: false,
    };
    assert_eq!(
        changes(&config, false, true),
        Changes {
            tray: Some(false),
            autostart: Some(true)
        }
    );
    assert_eq!(
        changes(&config, true, false),
        Changes {
            tray: None,
            autostart: None
        }
    );
    let (restore, unreadable) = rollback(false, true, Some(true), false);
    assert_eq!(
        restore,
        Changes {
            tray: Some(true),
            autostart: Some(false)
        }
    );
    assert!(!unreadable);
    assert!(rollback(false, true, None, true).1);
    let saved = Error::storage();
    assert_eq!(failed_save(saved.clone(), true).code, "storage");
    assert_eq!(failed_save(saved, false).code, "desktop_restore");
}
