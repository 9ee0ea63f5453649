use arf::history::{key_starts_with, parse_log, parse_log_line, record_key, sync_plan};

#[test]
fn log_line_splits_at_first_space() {
    let (sha, msg) = parse_log_line("abc1234 Fix the thing properly");
    assert_eq!(sha, "abc1234");
    assert_eq!(msg, "Fix the thing properly");
}

#[test]
fn log_line_without_space_has_no_summary() {
    let (sha, msg) = parse_log_line("abc1234");
    assert_eq!(sha, "abc1234");
    assert_eq!(msg, "");
}

#[test]
fn log_splits_into_lines() {
    let r = parse_log("abc1234 first\ndef5678 second one\n");
    assert_eq!(r.len(), 2);
    assert_eq!(r[0], ("abc1234".to_string(), "first".to_string()));
    assert_eq!(r[1], ("def5678".to_string(), "second one".to_string()));
    assert!(parse_log("").is_empty());
}

#[test]
fn record_key_takes_eight_bytes() {
    assert_eq!(record_key("abcdef1234567890").as_deref(), Some("abcdef12"));
    assert_eq!(record_key("abc").as_deref(), Some("abc"));
    assert_eq!(record_key("abcdef12").as_deref(), Some("abcdef12"));
    assert_eq!(record_key("").as_deref(), Some(""));
}

#[test]
fn record_key_counts_multibyte_characters_by_bytes() {
    assert_eq!(record_key("\u{e9}\u{e9}\u{e9}\u{e9}\u{e9}").as_deref(), Some("\u{e9}\u{e9}\u{e9}\u{e9}"));
    assert_eq!(record_key("\u{e9}\u{e9}\u{e9}").as_deref(), Some("\u{e9}\u{e9}\u{e9}"));
    assert_eq!(record_key("abcdef\u{e9}x").as_deref(), Some("abcdef\u{e9}"));
    assert_eq!(record_key("abcdef\u{20ac}x"), None);
}

#[test]
fn record_key_is_none_inside_a_character() {
    assert_eq!(record_key("abcdefg\u{e9}"), None);
    assert_eq!(record_key("abcdef1\u{1f600}"), None);
}

#[test]
fn graph_key_must_start_with_display_hash() {
    assert!(key_starts_with("abcdef12", "abcdef1"));
    assert!(key_starts_with("abcdef1", "abcdef1"));
    assert!(!key_starts_with("abc", "abcdef1"));
    assert!(!key_starts_with("abcdee12", "abcdef1"));
}

#[test]
fn sync_defaults_to_both() {
    assert_eq!(sync_plan(false, false), (true, true));
    assert_eq!(sync_plan(true, false), (false, true));
    assert_eq!(sync_plan(false, true), (true, false));
    assert_eq!(sync_plan(true, true), (true, true));
}
