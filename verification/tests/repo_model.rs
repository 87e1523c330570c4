use gitk_rs::blame::{blame_lines, file_text, line_count, RawHunk};
use gitk_rs::clock::format_timestamp;
use gitk_rs::diff::{assemble_diff, assemble_patch, status_char, DeltaStatus, RawDelta, RawPatchLine, RawStatLine};
use gitk_rs::history::{head_label, load_commits, repo_display_name, RawCommit};
use gitk_rs::model::RefKind;
use gitk_rs::refs::{all_branches, build_ref_map, classify_ref, HeadInfo, RawRef};

fn raw_ref(name: &str, short: &str, target: Option<&str>, is_branch: bool, is_remote: bool) -> RawRef {
    RawRef {
        name: Some(name.to_string()),
        shorthand: Some(short.to_string()),
        target: target.map(|t| t.to_string()),
        is_branch,
        is_remote,
    }
}

fn head(short: &str, target: &str) -> HeadInfo {
    HeadInfo { shorthand: Some(short.to_string()), target: Some(target.to_string()) }
}

const A: &str = "aaaaaaaaaaaaaaaaaaaaaaaaaaaaaaaaaaaaaaaa";
const B: &str = "bbbbbbbbbbbbbbbbbbbbbbbbbbbbbbbbbbbbbbbb";
const C: &str = "0123456789abcdef0123456789abcdef01234567";

fn raw_commit(id: &str, parents: &[&str]) -> RawCommit {
    RawCommit {
        id: id.to_string(),
        summary: Some("Fix login bug".to_string()),
        body: None,
        author_name: Some("Alice".to_string()),
        author_email: None,
        time: 1_700_000_000,
        parents: parents.iter().map(|p| p.to_string()).collect(),
    }
}

#[test]
fn refs_are_classified_by_name_and_head() {
    let h = head("main", A);
    assert_eq!(classify_ref(&raw_ref("refs/tags/v1", "v1", Some(A), false, false), &h), RefKind::Tag);
    assert_eq!(
        classify_ref(&raw_ref("refs/remotes/origin/main", "origin/main", Some(A), false, true), &h),
        RefKind::Remote
    );
    assert_eq!(classify_ref(&raw_ref("refs/heads/main", "main", Some(A), true, false), &h), RefKind::Head);
    assert_eq!(classify_ref(&raw_ref("refs/heads/dev", "dev", Some(A), true, false), &h), RefKind::Branch);
    assert_eq!(classify_ref(&raw_ref("refs/heads/main", "main", Some(B), true, false), &h), RefKind::Branch);
}

#[test]
fn ref_without_names_is_a_branch_named_question_mark() {
    let r = RawRef { name: None, shorthand: None, target: Some(A.to_string()), is_branch: true, is_remote: false };
    let h = head("main", A);
    assert_eq!(classify_ref(&r, &h), RefKind::Branch);
    let map = build_ref_map(&vec![r], &h);
    let labels = map.get(A).unwrap();
    assert_eq!(labels[0].name, "?");
}

#[test]
fn ref_map_groups_labels_by_commit_in_order() {
    let h = head("main", A);
    let refs = vec![
        raw_ref("refs/heads/main", "main", Some(A), true, false),
        raw_ref("refs/tags/v1", "v1", Some(B), false, false),
        raw_ref("refs/remotes/origin/main", "origin/main", Some(A), false, true),
        raw_ref("refs/heads/broken", "broken", None, true, false),
    ];
    let map = build_ref_map(&refs, &h);
    let a = map.get(A).unwrap();
    assert_eq!(a.len(), 2);
    assert_eq!((a[0].name.as_str(), a[0].kind), ("main", RefKind::Head));
    assert_eq!((a[1].name.as_str(), a[1].kind), ("origin/main", RefKind::Remote));
    let b = map.get(B).unwrap();
    assert_eq!((b[0].name.as_str(), b[0].kind), ("v1", RefKind::Tag));
    assert!(map.get(C).is_none());
}

#[test]
fn branch_list_is_sorted_deduplicated_and_starts_with_all() {
    let refs = vec![
        raw_ref("refs/heads/main", "main", Some(A), true, false),
        raw_ref("refs/tags/v1", "v1", Some(B), false, false),
        raw_ref("refs/remotes/origin/main", "origin/main", Some(A), false, true),
        raw_ref("refs/heads/dev", "dev", Some(A), true, false),
        raw_ref("refs/heads/dev", "dev", Some(A), true, false),
        raw_ref("refs/heads/Zeta", "Zeta", Some(A), true, false),
    ];
    assert_eq!(all_branches(&refs), vec!["(all)", "Zeta", "dev", "main", "origin/main"]);
    assert_eq!(all_branches(&vec![]), vec!["(all)"]);
}

#[test]
fn commits_take_the_window_and_skip_unreadable_entries() {
    let h = head("main", A);
    let refs = vec![raw_ref("refs/heads/main", "main", Some(A), true, false)];
    let walk = vec![Some(raw_commit(A, &[B])), None, Some(raw_commit(B, &[])), Some(raw_commit(C, &[]))];
    let commits = load_commits(&walk, &refs, &h, 3);
    assert_eq!(commits.len(), 2);
    assert_eq!(commits[0].id, A);
    assert_eq!(commits[0].short_id, "aaaaaaaa");
    assert_eq!(commits[0].summary, "Fix login bug");
    assert_eq!(commits[0].body, "");
    assert_eq!(commits[0].author, "Alice");
    assert_eq!(commits[0].email, "");
    assert_eq!(commits[0].timestamp, 1_700_000_000);
    assert_eq!(commits[0].parents, vec![B.to_string()]);
    assert_eq!(commits[0].refs.len(), 1);
    assert_eq!(commits[0].refs[0].kind, RefKind::Head);
    assert_eq!(commits[1].id, B);
    assert!(commits[1].refs.is_empty());
    assert_eq!(load_commits(&walk, &refs, &h, 0).len(), 0);
    assert_eq!(load_commits(&walk, &refs, &h, 100).len(), 3);
}

#[test]
fn missing_author_is_question_mark() {
    let mut c = raw_commit(C, &[]);
    c.author_name = None;
    c.summary = None;
    c.body = Some("details".to_string());
    let commits = load_commits(&vec![Some(c)], &vec![], &HeadInfo { shorthand: None, target: None }, 10);
    assert_eq!(commits[0].author, "?");
    assert_eq!(commits[0].summary, "");
    assert_eq!(commits[0].body, "details");
    assert_eq!(commits[0].short_id, "01234567");
}

#[test]
fn names_fall_back_to_defaults() {
    assert_eq!(repo_display_name(&Some("gitk".to_string()), "/x/gitk"), "gitk");
    assert_eq!(repo_display_name(&None, "/x/gitk"), "/x/gitk");
    assert_eq!(head_label(&Some("main".to_string())), "main");
    assert_eq!(head_label(&None), "HEAD");
}

#[test]
fn status_letters() {
    assert_eq!(status_char(DeltaStatus::Added), 'A');
    assert_eq!(status_char(DeltaStatus::Deleted), 'D');
    assert_eq!(status_char(DeltaStatus::Modified), 'M');
    assert_eq!(status_char(DeltaStatus::Renamed), 'R');
    assert_eq!(status_char(DeltaStatus::Copied), 'C');
    assert_eq!(status_char(DeltaStatus::Other), '?');
}

fn stat(path: &str, origin: char) -> RawStatLine {
    RawStatLine { new_path: Some(path.to_string()), old_path: None, origin }
}

#[test]
fn diff_counts_lines_per_file_and_keeps_renames() {
    let deltas = vec![
        RawDelta { status: DeltaStatus::Modified, new_path: Some("src/main.rs".to_string()), old_path: Some("src/main.rs".to_string()) },
        RawDelta { status: DeltaStatus::Renamed, new_path: Some("b.txt".to_string()), old_path: Some("a.txt".to_string()) },
        RawDelta { status: DeltaStatus::Deleted, new_path: None, old_path: Some("gone.txt".to_string()) },
    ];
    let stats = vec![
        stat("src/main.rs", '+'),
        stat("src/main.rs", '+'),
        stat("src/main.rs", '-'),
        stat("src/main.rs", ' '),
        stat("b.txt", '+'),
        RawStatLine { new_path: None, old_path: Some("gone.txt".to_string()), origin: '-' },
    ];
    let d = assemble_diff(&deltas, &stats, &vec![]);
    assert_eq!(d.files.len(), 3);
    assert_eq!((d.files[0].path.as_str(), d.files[0].status, d.files[0].additions, d.files[0].deletions), ("src/main.rs", 'M', 2, 1));
    assert_eq!(d.files[0].old_path, None);
    assert_eq!((d.files[1].path.as_str(), d.files[1].status, d.files[1].additions), ("b.txt", 'R', 1));
    assert_eq!(d.files[1].old_path.as_deref(), Some("a.txt"));
    assert_eq!((d.files[2].path.as_str(), d.files[2].status, d.files[2].deletions), ("gone.txt", 'D', 1));
    assert_eq!(d.patch, "");
}

#[test]
fn lines_count_for_the_first_file_with_their_path() {
    let deltas = vec![
        RawDelta { status: DeltaStatus::Added, new_path: Some("x".to_string()), old_path: None },
        RawDelta { status: DeltaStatus::Added, new_path: Some("x".to_string()), old_path: None },
    ];
    let d = assemble_diff(&deltas, &vec![stat("x", '+'), stat("x", '+'), stat("y", '+')], &vec![]);
    assert_eq!(d.files[0].additions, 2);
    assert_eq!(d.files[1].additions, 0);
}

#[test]
fn patch_keeps_marks_and_valid_text() {
    let lines = vec![
        RawPatchLine { origin: 'F', content: b"diff --git a/x b/x\n".to_vec() },
        RawPatchLine { origin: 'H', content: b"@@ -1 +1 @@\n".to_vec() },
        RawPatchLine { origin: '-', content: b"old\n".to_vec() },
        RawPatchLine { origin: '+', content: "n\u{e9}w\n".as_bytes().to_vec() },
        RawPatchLine { origin: ' ', content: vec![0xff, 0xfe] },
    ];
    assert_eq!(assemble_patch(&lines), "diff --git a/x b/x\n@@ -1 +1 @@\n-old\n+n\u{e9}w\n ");
}

#[test]
fn blame_lines_follow_the_file_lines() {
    let content = "one\r\ntwo\n\nfour";
    assert_eq!(line_count(content), 4);
    let hunk = |id: &str| Some(RawHunk { commit_id: id.to_string(), author: Some("Bob".to_string()), time: 0 });
    let hunks = vec![hunk(A), None, hunk("abc"), RawHunk { commit_id: C.to_string(), author: None, time: 0 }.into()];
    let lines = blame_lines(content, &hunks);
    assert_eq!(lines.len(), 3);
    assert_eq!((lines[0].lineno, lines[0].content.as_str(), lines[0].short_id.as_str(), lines[0].author.as_str()), (1, "one", "aaaaaaaa", "Bob"));
    assert_eq!((lines[1].lineno, lines[1].content.as_str(), lines[1].short_id.as_str()), (3, "", "abc"));
    assert_eq!((lines[2].lineno, lines[2].content.as_str(), lines[2].author.as_str()), (4, "four", "?"));
    assert_eq!(lines[2].commit_id, C);
    assert!(blame_lines("", &hunks).is_empty());
}

#[test]
fn timestamps_are_shown_to_the_minute() {
    let t = format_timestamp(1_700_000_000);
    let cs: Vec<char> = t.chars().collect();
    assert_eq!(cs.len(), 16);
    assert_eq!((cs[4], cs[7], cs[10], cs[13]), ('-', '-', ' ', ':'));
    assert!(t.starts_with("2023-11-1"));
}

#[test]
fn file_content_is_text_only_when_valid_utf8() {
    assert_eq!(file_text("line\nné\n".as_bytes()).as_deref(), Some("line\nné\n"));
    assert_eq!(file_text(&[0x66, 0xff, 0x66]), None);
}

#[test]
fn times_are_shown_within_a_day_of_utc() {
    let t = format_timestamp(0);
    assert!(t.starts_with("1970-01-01 ") || t.starts_with("1969-12-31 ") || t.starts_with("1970-01-02 "));
}
