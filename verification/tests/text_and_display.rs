use gitk_rs::display::{
    blame_gutters, branch_label_style, branch_listed, commit_message, decimal_text, holds_index,
    patch_line_style, row_shade, search_counter, split_path, status_style, BranchLabelStyle,
    FileStatusStyle, PatchLineStyle, RowShade,
};
use gitk_rs::display::{author_line, files_heading, line_count_text, menu_heading, parent_text, ref_text};
use gitk_rs::palette::badge_colors;
use egui::Color32;
use gitk_rs::model::{BlameLine, RefKind};
use gitk_rs::text::{chars_of, joined, contains, has_char, prefix_chars, same_text, split_lines, starts_with, string_of};

#[test]
fn lines_split_like_str_lines() {
    assert_eq!(split_lines("a\r\nb\n\nc"), vec!["a", "b", "", "c"]);
    assert_eq!(split_lines("a\n"), vec!["a"]);
    assert!(split_lines("").is_empty());
    assert_eq!(split_lines("\n"), vec![""]);
    assert_eq!(split_lines("x\ry\n"), vec!["x\ry"]);
    for s in ["a\r\nb\n\nc", "one\ntwo\r\n", "", "\n\n", "tail\r", "\u{e9}t\u{e9}\r\n\u{fc}"] {
        let expected: Vec<String> = s.lines().map(|l| l.to_string()).collect();
        assert_eq!(split_lines(s), expected);
    }
}

#[test]
fn text_helpers() {
    assert_eq!(chars_of("h\u{e9}"), vec!['h', '\u{e9}']);
    assert_eq!(string_of(&['o', 'k']), "ok");
    assert_eq!(joined("ab", "cd"), "abcd");
    assert_eq!(prefix_chars("abcdef", 3), "abc");
    assert_eq!(prefix_chars("ab", 8), "ab");
    assert!(same_text("x", "x") && !same_text("x", "y") && !same_text("x", "xy"));
    assert!(starts_with("refs/tags/v1", "refs/tags/") && !starts_with("refs", "refs/tags/"));
    assert!(contains("fix login bug", "login") && contains("abc", "") && !contains("abc", "abd"));
    assert!(has_char("origin/main", '/') && !has_char("main", '/'));
}

#[test]
fn commit_message_joins_summary_and_body() {
    assert_eq!(commit_message("Fix", ""), "Fix");
    assert_eq!(commit_message("Fix", "Details"), "Fix\n\nDetails");
}

#[test]
fn patch_lines_are_styled() {
    assert_eq!(patch_line_style("+added"), PatchLineStyle::Added);
    assert_eq!(patch_line_style("+++ b/x"), PatchLineStyle::FileHeader);
    assert_eq!(patch_line_style("-gone"), PatchLineStyle::Removed);
    assert_eq!(patch_line_style("--- a/x"), PatchLineStyle::FileHeader);
    assert_eq!(patch_line_style("@@ -1 +1 @@"), PatchLineStyle::HunkHeader);
    assert_eq!(patch_line_style("diff --git a/x b/x"), PatchLineStyle::FileHeader);
    assert_eq!(patch_line_style("index 123..456"), PatchLineStyle::FileHeader);
    assert_eq!(patch_line_style(" same"), PatchLineStyle::Context);
    assert_eq!(patch_line_style(""), PatchLineStyle::Context);
}

#[test]
fn file_status_styles() {
    assert_eq!(status_style('A'), FileStatusStyle::Added);
    assert_eq!(status_style('D'), FileStatusStyle::Deleted);
    assert_eq!(status_style('M'), FileStatusStyle::Modified);
    assert_eq!(status_style('R'), FileStatusStyle::Moved);
    assert_eq!(status_style('C'), FileStatusStyle::Moved);
    assert_eq!(status_style('?'), FileStatusStyle::Other);
}

#[test]
fn paths_split_at_the_last_slash() {
    assert_eq!(split_path("src/ui/app.rs"), ("app.rs".to_string(), "src/ui".to_string()));
    assert_eq!(split_path("README.md"), ("README.md".to_string(), String::new()));
    assert_eq!(split_path("dir/"), (String::new(), "dir".to_string()));
    assert_eq!(split_path("/root"), ("root".to_string(), String::new()));
}

#[test]
fn sidebar_hides_remote_branches_unless_asked() {
    assert!(branch_listed("main", false));
    assert!(!branch_listed("origin/main", false));
    assert!(branch_listed("origin/main", true));
    assert!(branch_listed("(all)", false));
    assert_eq!(branch_label_style("main", true), BranchLabelStyle::Selected);
    assert_eq!(branch_label_style("origin/main", false), BranchLabelStyle::Remote);
    assert_eq!(branch_label_style("main", false), BranchLabelStyle::Local);
}

#[test]
fn rows_are_shaded_by_selection_hits_and_parity() {
    let hits = vec![3, 5];
    assert_eq!(row_shade(3, Some(3), &hits), RowShade::Selected);
    assert_eq!(row_shade(3, Some(1), &hits), RowShade::SearchHit);
    assert_eq!(row_shade(4, None, &hits), RowShade::Even);
    assert_eq!(row_shade(7, None, &hits), RowShade::Plain);
    assert!(holds_index(&hits, 5) && !holds_index(&hits, 4));
}

#[test]
fn numbers_and_search_counter() {
    assert_eq!(decimal_text(0), "0");
    assert_eq!(decimal_text(1234), "1234");
    assert_eq!(decimal_text(usize::MAX), usize::MAX.to_string());
    assert_eq!(search_counter(0, 3), "1/3");
    assert_eq!(search_counter(2, 12), "3/12");
    assert_eq!(search_counter(0, 0), "");
}

fn bl(id: &str, author: &str, lineno: usize) -> BlameLine {
    BlameLine {
        commit_id: id.to_string(),
        short_id: id.chars().take(8).collect(),
        author: author.to_string(),
        date: String::new(),
        lineno,
        content: String::new(),
    }
}

#[test]
fn blame_gutter_blanks_repeated_commits() {
    let lines = vec![
        bl("aaaaaaaaaa", "Alexander Hamilton", 1),
        bl("aaaaaaaaaa", "Alexander Hamilton", 2),
        bl("bbbbbbbbbb", "Bo", 12345),
    ];
    let g = blame_gutters(&lines);
    assert_eq!((g[0].sha.as_str(), g[0].author.as_str(), g[0].lineno.as_str()), ("aaaaaaaa", "Alexander Ha", "   1 "));
    assert_eq!((g[1].sha.as_str(), g[1].author.as_str(), g[1].lineno.as_str()), ("        ", "            ", "   2 "));
    assert_eq!((g[2].sha.as_str(), g[2].author.as_str(), g[2].lineno.as_str()), ("bbbbbbbb", "Bo          ", "12345 "));
    let g2 = blame_gutters(&vec![bl("x", "\u{e9}\u{e9}\u{e9}\u{e9}\u{e9}\u{e9}\u{e9}\u{e9}\u{e9}\u{e9}", 1)]);
    assert_eq!(g2[0].author, format!("{:<12}", "\u{e9}\u{e9}\u{e9}\u{e9}\u{e9}\u{e9}\u{e9}\u{e9}\u{e9}\u{e9}"));
}

#[test]
fn header_texts() {
    assert_eq!(author_line("Alice", "a@b"), "Alice <a@b>");
    assert_eq!(ref_text("main"), "[main]");
    assert_eq!(menu_heading("abc1234"), "Commit abc1234");
    assert_eq!(files_heading(12), "Changed files (12)");
    assert_eq!(parent_text("0123456789abcdef"), "01234567");
    assert_eq!(parent_text("abc"), "abc");
    assert_eq!(line_count_text('+', 42), "+42");
    assert_eq!(line_count_text('-', 0), "-0");
}

#[test]
fn badge_colours_per_ref_kind() {
    assert_eq!(badge_colors(RefKind::Head), (Color32::from_rgb(0x10, 0x60, 0x10), Color32::from_rgb(0x90, 0xff, 0x90)));
    assert_eq!(badge_colors(RefKind::Tag), (Color32::from_rgb(0x60, 0x40, 0x00), Color32::from_rgb(0xff, 0xd0, 0x50)));
    assert_eq!(badge_colors(RefKind::Remote), (Color32::from_rgb(0x00, 0x30, 0x60), Color32::from_rgb(0x80, 0xb8, 0xff)));
    assert_eq!(badge_colors(RefKind::Branch), (Color32::from_rgb(0x10, 0x30, 0x60), Color32::from_rgb(0x80, 0xc8, 0xff)));
}
