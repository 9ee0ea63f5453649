use arf::catalog::CommitRecord;
use arf::classify::LineKind;
use arf::session::{DiffMode, Focus, Input, Session};

fn commits(n: usize) -> Vec<CommitRecord> {
    (0..n)
        .map(|i| CommitRecord {
            full_hash: format!("{:040}", i),
            short_hash: format!("{:07}", i),
            summary: format!("commit {}", i),
            annotations: Vec::new(),
        })
        .collect()
}

fn patch(n: usize) -> String {
    (0..n).map(|i| format!("+line {}\n", i)).collect()
}

#[test]
fn new_session_starts_on_first_commit() {
    let s = Session::new(commits(3));
    assert_eq!(s.selected(), Some(0));
    assert_eq!(s.diff_mode(), DiffMode::Stat);
    assert_eq!(s.focus(), Focus::CommitList);
    assert_eq!(s.scroll(), 0);
    assert!(s.lines().is_empty());
    assert!(!s.should_quit());
    let q = s.changeset_request().unwrap();
    assert_eq!(q.hash, format!("{:040}", 0));
    assert!(!q.full);
}

#[test]
fn next_wraps_around_after_count_steps() {
    let mut s = Session::new(commits(4));
    s.select_next();
    assert_eq!(s.selected(), Some(1));
    s.select_next();
    s.select_next();
    s.select_next();
    assert_eq!(s.selected(), Some(0));
}

#[test]
fn previous_wraps_to_last() {
    let mut s = Session::new(commits(3));
    let q = s.select_previous().unwrap();
    assert_eq!(s.selected(), Some(2));
    assert_eq!(q.hash, format!("{:040}", 2));
    assert_eq!(s.selected_commit().unwrap().summary, "commit 2");
}

#[test]
fn empty_session_navigation_is_noop() {
    let mut s = Session::new(Vec::new());
    assert_eq!(s.selected(), None);
    assert!(s.select_next().is_none());
    assert!(s.select_previous().is_none());
    assert_eq!(s.selected(), None);
    assert!(s.selected_commit().is_none());
    assert!(s.changeset_request().is_none());
    assert!(s.commits().is_empty());
}

#[test]
fn cycle_three_times_restores_mode() {
    let mut s = Session::new(commits(2));
    assert_eq!(s.diff_mode(), DiffMode::Stat);
    let q = s.cycle_diff_mode().unwrap();
    assert!(q.full);
    assert_eq!(s.diff_mode(), DiffMode::Full);
    assert!(s.cycle_diff_mode().is_none());
    assert_eq!(s.diff_mode(), DiffMode::Hidden);
    let q = s.cycle_diff_mode().unwrap();
    assert!(!q.full);
    assert_eq!(s.diff_mode(), DiffMode::Stat);
}

#[test]
fn hiding_the_changeset_moves_focus_to_list() {
    let mut s = Session::new(commits(2));
    s.cycle_diff_mode();
    s.toggle_focus();
    assert_eq!(s.focus(), Focus::DiffPane);
    s.cycle_diff_mode();
    assert_eq!(s.diff_mode(), DiffMode::Hidden);
    assert_eq!(s.focus(), Focus::CommitList);
}

#[test]
fn toggle_focus_is_noop_when_hidden() {
    let mut s = Session::new(commits(2));
    s.cycle_diff_mode();
    s.cycle_diff_mode();
    assert_eq!(s.diff_mode(), DiffMode::Hidden);
    s.toggle_focus();
    assert_eq!(s.focus(), Focus::CommitList);
    assert_eq!(s.diff_mode(), DiffMode::Hidden);
}

#[test]
fn toggle_focus_swaps_when_shown() {
    let mut s = Session::new(commits(2));
    s.toggle_focus();
    assert_eq!(s.focus(), Focus::DiffPane);
    s.toggle_focus();
    assert_eq!(s.focus(), Focus::CommitList);
}

#[test]
fn scrolling_is_clamped_in_the_diff_pane() {
    let mut s = Session::new(commits(2));
    s.load_changeset(Some(&patch(25)));
    assert_eq!(s.lines().len(), 25);
    assert_eq!(s.lines()[0].kind, LineKind::Added);
    s.toggle_focus();
    s.select_previous();
    assert_eq!(s.scroll(), 0);
    s.select_next();
    assert_eq!(s.scroll(), 1);
    assert_eq!(s.selected(), Some(0));
    s.page_down();
    assert_eq!(s.scroll(), 11);
    s.page_down();
    assert_eq!(s.scroll(), 21);
    s.page_down();
    assert_eq!(s.scroll(), 24);
    s.select_next();
    assert_eq!(s.scroll(), 24);
    s.page_up();
    assert_eq!(s.scroll(), 14);
    s.page_up();
    s.page_up();
    assert_eq!(s.scroll(), 0);
}

#[test]
fn paging_is_noop_in_the_commit_list() {
    let mut s = Session::new(commits(2));
    s.load_changeset(Some(&patch(25)));
    s.page_down();
    assert_eq!(s.scroll(), 0);
    s.page_up();
    assert_eq!(s.scroll(), 0);
}

#[test]
fn paging_over_no_lines_stays_at_zero() {
    let mut s = Session::new(commits(1));
    s.toggle_focus();
    s.page_down();
    assert_eq!(s.scroll(), 0);
    s.select_next();
    assert_eq!(s.scroll(), 0);
}

#[test]
fn selecting_another_commit_resets_the_pane() {
    let mut s = Session::new(commits(3));
    s.load_changeset(Some(&patch(5)));
    let q = s.select_next().unwrap();
    assert_eq!(q.hash, format!("{:040}", 1));
    assert!(s.lines().is_empty());
    assert_eq!(s.scroll(), 0);
}

#[test]
fn failed_fetch_is_shown_in_the_pane() {
    let mut s = Session::new(commits(1));
    s.load_changeset(None);
    assert_eq!(s.lines().len(), 1);
    assert_eq!(s.lines()[0].text, "Failed to get diff");
    assert_eq!(s.lines()[0].kind, LineKind::Plain);
}

#[test]
fn loading_while_hidden_shows_nothing() {
    let mut s = Session::new(commits(1));
    s.cycle_diff_mode();
    s.cycle_diff_mode();
    s.load_changeset(Some(&patch(3)));
    assert!(s.lines().is_empty());
    let mut e = Session::new(Vec::new());
    e.load_changeset(Some(&patch(3)));
    assert!(e.lines().is_empty());
}

#[test]
fn handle_dispatches_each_input() {
    let mut s = Session::new(commits(3));
    assert!(s.handle(Input::Down).is_some());
    assert_eq!(s.selected(), Some(1));
    assert!(s.handle(Input::Up).is_some());
    assert_eq!(s.selected(), Some(0));
    assert!(s.handle(Input::ToggleFocus).is_none());
    assert_eq!(s.focus(), Focus::DiffPane);
    s.load_changeset(Some(&patch(30)));
    assert!(s.handle(Input::PageDown).is_none());
    assert_eq!(s.scroll(), 10);
    assert!(s.handle(Input::PageUp).is_none());
    assert_eq!(s.scroll(), 0);
    assert!(s.handle(Input::CycleDiff).is_some());
    assert_eq!(s.diff_mode(), DiffMode::Full);
    assert!(s.handle(Input::Quit).is_none());
    assert!(s.should_quit());
}
