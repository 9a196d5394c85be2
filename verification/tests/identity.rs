use codex_usage::identity::{absolute_location, resolve_location, MAX_LOCATION_CANDIDATES};

fn path(text: &str) -> String {
    text.to_owned()
}

#[test]
fn location_requires_one_consistent_exact_bucket() {
    let a = path("/tmp/identity-a");
    let b = path("/tmp/identity-b");
    let child = path("/tmp/identity-a/child");
    assert_eq!(resolve_location(&[a.clone()], &[]).path, Some(a.clone()));
    assert_eq!(
        resolve_location(&[child.clone()], &[a.clone(), b.clone()]).path,
        Some(a.clone())
    );
    assert_eq!(
        resolve_location(&[child.clone()], &[a.clone(), child]).state,
        "ambiguous"
    );
    assert_eq!(
        resolve_location(&[a.clone(), b.clone()], &[]).state,
        "ambiguous"
    );
    assert_eq!(
        resolve_location(&[b.clone()], &[a.clone()]).state,
        "ambiguous"
    );
    assert_eq!(resolve_location(&[], &[a.clone(), b]).state, "ambiguous");
    assert_eq!(resolve_location(&[], &[a.clone()]).path, Some(a));
    assert_eq!(resolve_location(&[], &[]).state, "unavailable");
    assert_eq!(
        resolve_location(&["relative/path".into()], &[]).state,
        "ambiguous"
    );
    assert_eq!(
        resolve_location(&vec!["a".into(); MAX_LOCATION_CANDIDATES + 1], &[]).state,
        "limit"
    );
}

#[test]
fn locations_are_lexically_normalized_and_parent_steps_refused() {
    let location = resolve_location(&[path("/tmp//work/./repo/")], &[]);
    assert_eq!(location.path.as_deref(), Some("/tmp/work/repo"));
    assert_eq!(location.state, "available");
    assert_eq!(resolve_location(&[path("/")], &[]).path.as_deref(), Some("/"));
    assert!(absolute_location("/tmp/../etc").is_none());
    assert!(absolute_location("/tmp/a\0b").is_none());
    assert!(absolute_location("").is_none());
    assert_eq!(
        absolute_location("/a/b").unwrap(),
        vec![String::from("a"), String::from("b")]
    );
}

#[test]
fn duplicate_evidence_is_one_location() {
    let a = path("/work/project");
    let location = resolve_location(&[a.clone(), path("/work/project/")], &[]);
    assert_eq!(location.path, Some(a.clone()));
    let nested = resolve_location(
        &[path("/work/project/src"), path("/work/project/docs")],
        &[a.clone(), a.clone()],
    );
    assert_eq!(nested.path, Some(a));
    let prefix_only_by_text = resolve_location(&[path("/work/projects")], &[path("/work/project")]);
    assert_eq!(prefix_only_by_text.state, "ambiguous");
}
