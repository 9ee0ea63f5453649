use arf::catalog::{
    build_catalog, matches_commit, newest_first, reasoning_text, record_for, sort_by_time,
    time_not_after,
    AnnotationEntry, AnnotationGroup, CommitHeader,
};

fn entry(what: &str, ts: &str) -> AnnotationEntry {
    AnnotationEntry {
        what: what.to_string(),
        why: format!("because {}", what),
        how: None,
        backup: None,
        timestamp: ts.to_string(),
    }
}

fn header(full: &str, short: &str, summary: &str) -> CommitHeader {
    CommitHeader {
        full_hash: full.to_string(),
        short_hash: short.to_string(),
        summary: summary.to_string(),
    }
}

fn group(key: &str, entries: Vec<AnnotationEntry>) -> AnnotationGroup {
    AnnotationGroup { key: key.to_string(), entries }
}

#[test]
fn group_attaches_to_its_commit_only() {
    let history = vec![
        header("abcdef1234567890", "abcdef1", "first"),
        header("1234567890abcdef", "1234567", "second"),
        header("abcdee0000000000", "abcdee0", "third"),
    ];
    let groups = Some(vec![group("abcdef12", vec![entry("a", "2024-01-01T00:00:00Z")])]);
    let catalog = build_catalog(&history, &groups);
    assert_eq!(catalog.len(), 3);
    assert_eq!(catalog[0].annotations.len(), 1);
    assert_eq!(catalog[0].annotations[0].what, "a");
    assert!(catalog[1].annotations.is_empty());
    assert!(catalog[2].annotations.is_empty());
    assert_eq!(catalog[0].full_hash, "abcdef1234567890");
    assert_eq!(catalog[0].short_hash, "abcdef1");
    assert_eq!(catalog[1].summary, "second");
}

#[test]
fn unreadable_store_leaves_every_commit_bare() {
    let history = vec![
        header("abcdef1234567890", "abcdef1", "first"),
        header("1234567890abcdef", "1234567", "second"),
    ];
    let catalog = build_catalog(&history, &None);
    assert_eq!(catalog.len(), 2);
    assert!(catalog.iter().all(|c| c.annotations.is_empty()));
    assert_eq!(catalog[1].summary, "second");
}

#[test]
fn matching_goes_both_ways() {
    assert!(matches_commit("abcdef12", "abcdef1234567890", "abcdef1"));
    assert!(matches_commit("abcd", "abcdef1234567890", "abcdef1"));
    assert!(matches_commit("abcdef12", "ffff", "abcdef"));
    assert!(!matches_commit("abcdef13", "abcdef1234567890", "abcdef1x"));
    assert!(!matches_commit("12345678", "abcdef1234567890", "abcdef1"));
}

#[test]
fn entries_come_sorted_by_time() {
    let history = vec![header("abcdef1234567890", "abcdef1", "first")];
    let groups = Some(vec![group(
        "abcdef12",
        vec![
            entry("late", "2024-03-01T00:00:00Z"),
            entry("early", "2024-01-01T00:00:00Z"),
            entry("middle", "2024-02-01T00:00:00Z"),
        ],
    )]);
    let catalog = build_catalog(&history, &groups);
    let whats: Vec<&str> = catalog[0].annotations.iter().map(|e| e.what.as_str()).collect();
    assert_eq!(whats, vec!["early", "middle", "late"]);
}

#[test]
fn first_matching_group_wins() {
    let h = header("abcdef1234567890", "abcdef1", "x");
    let groups = Some(vec![
        group("99999999", vec![entry("other", "1")]),
        group("abcdef12", vec![entry("mine", "2")]),
        group("abcdef1", vec![entry("later", "3")]),
    ]);
    let r = record_for(&h, &groups);
    assert_eq!(r.annotations.len(), 1);
    assert_eq!(r.annotations[0].what, "mine");
}

#[test]
fn sorting_keeps_equal_stamps_in_order() {
    let v = vec![entry("b", "2"), entry("a", "1"), entry("c", "2"), entry("d", "0")];
    let r = sort_by_time(v);
    let whats: Vec<&str> = r.iter().map(|e| e.what.as_str()).collect();
    assert_eq!(whats, vec!["d", "a", "b", "c"]);
    assert!(sort_by_time(Vec::new()).is_empty());
}

#[test]
fn time_order_is_lexicographic() {
    assert!(time_not_after("2024-01-01", "2024-01-02"));
    assert!(time_not_after("2024-01-01", "2024-01-01"));
    assert!(!time_not_after("2024-01-02", "2024-01-01"));
    assert!(time_not_after("2024", "2024-01"));
    assert!(!time_not_after("2024-01", "2024"));
    assert!(time_not_after("", ""));
}

#[test]
fn newest_first_orders_and_limits() {
    let stamps: Vec<String> = vec!["2024-02", "2024-03", "2024-01", "2024-04"]
        .into_iter()
        .map(|s| s.to_string())
        .collect();
    assert_eq!(newest_first(&stamps, 10), vec![3, 1, 0, 2]);
    assert_eq!(newest_first(&stamps, 2), vec![3, 1]);
    assert!(newest_first(&stamps, 0).is_empty());
    assert!(newest_first(&Vec::new(), 5).is_empty());
}

#[test]
fn cloned_entry_keeps_every_field() {
    let e = AnnotationEntry {
        what: "w".to_string(),
        why: "y".to_string(),
        how: Some("h".to_string()),
        backup: Some("b".to_string()),
        timestamp: "t".to_string(),
    };
    let c = e.clone();
    assert_eq!(c.what, "w");
    assert_eq!(c.why, "y");
    assert_eq!(c.how.as_deref(), Some("h"));
    assert_eq!(c.backup.as_deref(), Some("b"));
    assert_eq!(c.timestamp, "t");
}

#[test]
fn reasoning_text_joins_entries() {
    let history = vec![header("abcdef1234567890", "abcdef1", "first")];
    let mut late = entry("two", "2");
    late.how = Some("carefully".to_string());
    late.backup = Some("revert".to_string());
    let groups = Some(vec![group("abcdef12", vec![late, entry("one", "1")])]);
    let catalog = build_catalog(&history, &groups);
    assert_eq!(
        reasoning_text(Some(&catalog[0])),
        "what: one\nwhy:  because one\n\n---\n\nwhat: two\nwhy:  because two\nhow:  carefully\nback: revert"
    );
}

#[test]
fn reasoning_text_placeholders() {
    let history = vec![header("abcdef1234567890", "abcdef1", "first")];
    let catalog = build_catalog(&history, &None);
    assert_eq!(reasoning_text(Some(&catalog[0])), "(no annotation for this commit)");
    assert_eq!(reasoning_text(None), "No commit selected");
}
