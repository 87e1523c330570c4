use gitk_rs::browser::{BottomTab, Browser};
use gitk_rs::model::{Commit, CommitDiff, DiffFile};

fn commit(id: &str, summary: &str, author: &str, parents: &[&str]) -> Commit {
    Commit {
        id: id.to_string(),
        short_id: id.chars().take(8).collect(),
        summary: summary.to_string(),
        body: String::new(),
        author: author.to_string(),
        email: format!("{}@example.org", author.to_lowercase()),
        timestamp: 0,
        date_str: String::new(),
        parents: parents.iter().map(|p| p.to_string()).collect(),
        refs: vec![],
    }
}

fn loaded() -> Browser {
    let mut b = Browser::new();
    let commits = vec![
        commit("c3c3c3c3c3", "Fix LOGIN bug", "Alice", &["c2c2c2c2c2"]),
        commit("c2c2c2c2c2", "Add dark mode", "Bob", &["c1c1c1c1c1"]),
        commit("c1c1c1c1c1", "Login page", "Alice", &[]),
    ];
    let req = b.install(commits, vec!["(all)".to_string(), "main".to_string()], "demo", "main");
    assert_eq!(req.as_deref(), Some("c3c3c3c3c3"));
    b
}

#[test]
fn new_browser_defaults() {
    let b = Browser::new();
    assert_eq!(b.search_field, "summary");
    assert_eq!(b.max_commits, 5000);
    assert_eq!(b.branch_filter, "(all)");
    assert_eq!(b.bottom_tab, BottomTab::Diff);
    assert!(b.commits.is_empty() && b.selected_idx.is_none());
}

#[test]
fn install_lays_out_and_selects_the_first_commit() {
    let b = loaded();
    assert_eq!(b.status_msg, "demo on main \u{2014} 3 commits");
    assert_eq!(b.selected_idx, Some(0));
    assert_eq!(b.graph.as_ref().unwrap().nodes.len(), 3);
    assert!(b.error.is_none());
    let mut e = Browser::new();
    assert_eq!(e.install(vec![], vec![], "empty", "HEAD"), None);
    assert_eq!(e.status_msg, "empty on HEAD \u{2014} 0 commits");
    assert!(e.selected_idx.is_none());
}

#[test]
fn open_failure_is_reported() {
    let mut b = Browser::new();
    b.open_failed("not a repository");
    assert_eq!(b.error.as_deref(), Some("Cannot open repository: not a repository"));
}

#[test]
fn cached_diff_is_not_requested_again() {
    let mut b = loaded();
    b.store_diff("c3c3c3c3c3".to_string(), CommitDiff::default());
    assert_eq!(b.select_commit(0), None);
    assert_eq!(b.select_commit(1).as_deref(), Some("c2c2c2c2c2"));
}

#[test]
fn search_is_case_insensitive_and_steps_wrap() {
    let mut b = loaded();
    b.search_query = "Login".to_string();
    let req = b.run_search();
    assert_eq!(b.search_matches, vec![0, 2]);
    assert_eq!(b.search_cursor, 0);
    assert_eq!(b.selected_idx, Some(0));
    assert_eq!(req.as_deref(), Some("c3c3c3c3c3"));
    b.search_step(true);
    assert_eq!((b.search_cursor, b.selected_idx), (1, Some(2)));
    b.search_step(true);
    assert_eq!((b.search_cursor, b.selected_idx), (0, Some(0)));
    b.search_step(false);
    assert_eq!((b.search_cursor, b.selected_idx), (1, Some(2)));
    b.search_step(true);
    assert_eq!(b.search_cursor, 0);
}

#[test]
fn search_fields_and_empty_query() {
    let mut b = loaded();
    b.search_field = "sha".to_string();
    b.search_query = "C2".to_string();
    b.run_search();
    assert_eq!(b.search_matches, vec![1]);
    b.search_field = "author".to_string();
    b.search_query = "bob@".to_string();
    b.run_search();
    assert_eq!(b.search_matches, vec![1]);
    b.search_query = String::new();
    assert_eq!(b.run_search(), None);
    assert!(b.search_matches.is_empty());
    assert_eq!(b.search_step(true), None);
}

#[test]
fn find_author_searches_by_author() {
    let mut b = loaded();
    b.find_author(2);
    assert_eq!(b.search_field, "author");
    assert_eq!(b.search_query, "Alice");
    assert_eq!(b.search_matches, vec![0, 2]);
}

#[test]
fn keyboard_moves_within_the_list() {
    let mut b = loaded();
    assert_eq!(b.select_prev(), None);
    assert_eq!(b.selected_idx, Some(0));
    assert_eq!(b.select_next().as_deref(), Some("c2c2c2c2c2"));
    b.select_next();
    assert_eq!(b.selected_idx, Some(2));
    assert_eq!(b.select_next(), None);
    assert_eq!(b.selected_idx, Some(2));
}

#[test]
fn blame_is_requested_for_the_selected_file_once() {
    let mut b = loaded();
    let diff = CommitDiff {
        files: vec![DiffFile { path: "src/main.rs".to_string(), old_path: None, status: 'M', additions: 1, deletions: 0 }],
        patch: String::new(),
    };
    b.store_diff("c3c3c3c3c3".to_string(), diff);
    assert_eq!(b.select_file(0), None);
    let req = b.show_blame_tab().unwrap();
    assert_eq!(req, ("c3c3c3c3c3".to_string(), "src/main.rs".to_string()));
    b.store_blame(req.0, req.1, vec![]);
    assert_eq!(b.blame_request(), None);
    assert_eq!(b.select_file(0), None);
    b.show_diff_tab();
    assert_eq!(b.bottom_tab, BottomTab::Diff);
    b.select_commit(1);
    assert_eq!(b.blame_request(), None);
}

#[test]
fn stepping_forward_once_per_match_comes_back() {
    let mut b = loaded();
    b.search_query = "login".to_string();
    b.run_search();
    assert_eq!(b.search_matches, vec![0, 2]);
    let start = b.search_cursor;
    for _ in 0..b.search_matches.len() {
        b.search_step(true);
    }
    assert_eq!(b.search_cursor, start);
    assert_eq!(b.selected_idx, Some(b.search_matches[start]));
}

#[test]
fn storing_a_diff_keeps_the_tab_and_the_search() {
    let mut b = loaded();
    b.search_query = "login".to_string();
    b.run_search();
    b.search_step(true);
    let cursor = b.search_cursor;
    b.store_diff("c1c1c1c1c1".to_string(), CommitDiff { files: vec![], patch: String::new() });
    assert_eq!(b.bottom_tab, BottomTab::Diff);
    assert_eq!(b.search_cursor, cursor);
    assert_eq!(b.search_matches, vec![0, 2]);
    assert_eq!(b.status_msg, "demo on main \u{2014} 3 commits");
}

#[test]
fn failing_to_open_keeps_the_loaded_repository() {
    let mut b = loaded();
    b.open_failed("no such path");
    assert_eq!(b.error.as_deref(), Some("Cannot open repository: no such path"));
    assert_eq!(b.commits.len(), 3);
    assert!(b.graph.is_some());
    assert_eq!(b.selected_idx, Some(0));
    assert_eq!(b.status_msg, "demo on main \u{2014} 3 commits");
    assert_eq!(b.branches, vec!["(all)", "main"]);
}

#[test]
fn finding_an_author_selects_the_first_of_their_commits() {
    let mut b = loaded();
    b.select_commit(1);
    let req = b.find_author(2);
    assert_eq!(b.search_matches, vec![0, 2]);
    assert_eq!(b.search_cursor, 0);
    assert_eq!(b.selected_idx, Some(0));
    assert_eq!(b.selected_file, None);
    assert_eq!(req.as_deref(), Some("c3c3c3c3c3"));
}
