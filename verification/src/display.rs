//! How the browser shows texts: commit messages, patch lines, file paths,
//! branch names, graph rows and the blame gutter.

use vstd::prelude::*;
use crate::model::BlameLine;
use crate::blame::{short_prefix_ok, short_form};
use crate::text::{
    is_prefix_of, contains_text, joined, copy_text, starts_with, has_char, same_text, chars_of,
    string_of, prefix_chars, push_char,
};

verus! {

broadcast use vstd::string::group_string_axioms;

/// The full message of a commit: the summary, then a blank line and the
/// body when there is one.
pub open spec fn spec_commit_message(summary: Seq<char>, body: Seq<char>) -> Seq<char> {
    if body.len() == 0 {
        summary
    } else {
        summary + seq!['\n', '\n'] + body
    }
}

/// The full message of a commit.
pub fn commit_message(summary: &str, body: &str) -> (msg: String)
    ensures
        msg@ == spec_commit_message(summary@, body@),
{
    if body.is_empty() {
        copy_text(summary)
    } else {
        let mut m = copy_text(summary);
        push_char(&mut m, '\n');
        push_char(&mut m, '\n');
        let r = joined(m.as_str(), body);
        assert(r@ =~= summary@ + seq!['\n', '\n'] + body@);
        r
    }
}

/// How a line of a patch is coloured.
#[derive(Clone, Copy, Debug, PartialEq, Eq)]
pub enum PatchLineStyle {
    Added,
    Removed,
    HunkHeader,
    FileHeader,
    Context,
}

/// The style of a patch line: `+` and `-` lines other than the `+++` and
/// `---` file lines, `@@` hunk headers, `diff `, `index `, `---` and `+++`
/// file headers, and everything else.
pub open spec fn spec_patch_line_style(line: Seq<char>) -> PatchLineStyle {
    if is_prefix_of(seq!['+'], line) && !is_prefix_of("+++"@, line) {
        PatchLineStyle::Added
    } else if is_prefix_of(seq!['-'], line) && !is_prefix_of("---"@, line) {
        PatchLineStyle::Removed
    } else if is_prefix_of("@@"@, line) {
        PatchLineStyle::HunkHeader
    } else if is_prefix_of("diff "@, line) || is_prefix_of("index "@, line) || is_prefix_of(
        "---"@,
        line,
    ) || is_prefix_of("+++"@, line) {
        PatchLineStyle::FileHeader
    } else {
        PatchLineStyle::Context
    }
}

/// Whether a line starts with the character `c`.
fn starts_with_char(line: &str, c: char) -> (b: bool)
    ensures
        b == is_prefix_of(seq![c], line@),
{
    let cs = chars_of(line);
    if cs.len() == 0 {
        false
    } else {
        assert(cs@.subrange(0, 1) =~= seq![cs@[0]]);
        proof {
            if cs@[0] != c {
                assert(seq![cs@[0]][0] != seq![c][0]);
            }
        }
        cs[0] == c
    }
}

/// The style of a patch line.
pub fn patch_line_style(line: &str) -> (style: PatchLineStyle)
    ensures
        style == spec_patch_line_style(line@),
{
    if starts_with_char(line, '+') && !starts_with(line, "+++") {
        PatchLineStyle::Added
    } else if starts_with_char(line, '-') && !starts_with(line, "---") {
        PatchLineStyle::Removed
    } else if starts_with(line, "@@") {
        PatchLineStyle::HunkHeader
    } else if starts_with(line, "diff ") || starts_with(line, "index ") || starts_with(line, "---")
        || starts_with(line, "+++") {
        PatchLineStyle::FileHeader
    } else {
        PatchLineStyle::Context
    }
}

/// How the status letter of a changed file is coloured.
#[derive(Clone, Copy, Debug, PartialEq, Eq)]
pub enum FileStatusStyle {
    Added,
    Deleted,
    Modified,
    Moved,
    Other,
}

/// The style of a status letter: `A`, `D`, `M`, `R` or `C` (both moves),
/// and every other letter.
pub open spec fn spec_status_style(c: char) -> FileStatusStyle {
    if c == 'A' {
        FileStatusStyle::Added
    } else if c == 'D' {
        FileStatusStyle::Deleted
    } else if c == 'M' {
        FileStatusStyle::Modified
    } else if c == 'R' || c == 'C' {
        FileStatusStyle::Moved
    } else {
        FileStatusStyle::Other
    }
}

/// The style of a status letter.
pub fn status_style(c: char) -> (style: FileStatusStyle)
    ensures
        style == spec_status_style(c),
{
    if c == 'A' {
        FileStatusStyle::Added
    } else if c == 'D' {
        FileStatusStyle::Deleted
    } else if c == 'M' {
        FileStatusStyle::Modified
    } else if c == 'R' || c == 'C' {
        FileStatusStyle::Moved
    } else {
        FileStatusStyle::Other
    }
}

/// The position of the last `/` in a path, if any.
pub open spec fn last_slash(path: Seq<char>) -> Option<int> {
    if exists|i: int| 0 <= i < path.len() && path[i] == '/' {
        Some(choose|i: int| 0 <= i < path.len() && path[i] == '/' && forall|j: int| i < j < path.len() ==> path[j] != '/')
    } else {
        None
    }
}

/// A path shown as its file name and the directory above it: split at the
/// last `/`; a path without `/` is a file name with no directory.
pub fn split_path(path: &str) -> (parts: (String, String))
    ensures
        match last_slash(path@) {
            Some(i) => parts.0@ == path@.skip(i + 1) && parts.1@ == path@.take(i),
            None => parts.0@ == path@ && parts.1@.len() == 0,
        },
{
    let cs = chars_of(path);
    let mut k: usize = cs.len();
    while k > 0 && cs[k - 1] != '/'
        invariant
            k <= cs@.len(),
            cs@ == path@,
            forall|j: int| k <= j < cs@.len() ==> cs@[j] != '/',
        decreases k,
    {
        k = k - 1;
    }
    if k == 0 {
        assert forall|i: int| 0 <= i < path@.len() implies path@[i] != '/' by {}
        (copy_text(path), String::new())
    } else {
        let i = k - 1;
        proof {
            let w = choose|w: int| 0 <= w < path@.len() && path@[w] == '/' && forall|j: int| w < j < path@.len() ==> path@[j] != '/';
            assert(path@[i as int] == '/');
            if w < i {
                assert(path@[i as int] != '/');
            } else if w > i {
                assert(path@[w] != '/');
            }
        }
        let mut name: Vec<char> = Vec::new();
        let mut j: usize = k;
        while j < cs.len()
            invariant
                k <= j <= cs@.len(),
                name@ == cs@.subrange(k as int, j as int),
            decreases cs@.len() - j,
        {
            assert(cs@.subrange(k as int, j + 1) =~= cs@.subrange(k as int, j as int).push(cs@[j as int]));
            name.push(cs[j]);
            j = j + 1;
        }
        assert(cs@.subrange(k as int, cs@.len() as int) =~= cs@.skip(k as int));
        let dir = prefix_chars(path, i);
        (string_of(&name), dir)
    }
}

/// Whether the sidebar lists a branch: remote branches (names with `/`) only
/// when remotes are shown; `(all)` always.
pub open spec fn spec_branch_listed(name: Seq<char>, show_remotes: bool) -> bool {
    !(!show_remotes && name.contains('/') && name != "(all)"@)
}

/// Whether the sidebar lists a branch.
pub fn branch_listed(name: &str, show_remotes: bool) -> (listed: bool)
    ensures
        listed == spec_branch_listed(name@, show_remotes),
{
    !(!show_remotes && has_char(name, '/') && !same_text(name, "(all)"))
}

/// How a branch name in the sidebar is coloured.
#[derive(Clone, Copy, Debug, PartialEq, Eq)]
pub enum BranchLabelStyle {
    Selected,
    Remote,
    Local,
}

/// The style of a branch name: the selected one, remote branches (names
/// starting `origin/` or holding `/`), and local branches.
pub open spec fn spec_branch_label_style(name: Seq<char>, selected: bool) -> BranchLabelStyle {
    if selected {
        BranchLabelStyle::Selected
    } else if is_prefix_of("origin/"@, name) || name.contains('/') {
        BranchLabelStyle::Remote
    } else {
        BranchLabelStyle::Local
    }
}

/// The style of a branch name.
pub fn branch_label_style(name: &str, selected: bool) -> (style: BranchLabelStyle)
    ensures
        style == spec_branch_label_style(name@, selected),
{
    if selected {
        BranchLabelStyle::Selected
    } else if starts_with(name, "origin/") || has_char(name, '/') {
        BranchLabelStyle::Remote
    } else {
        BranchLabelStyle::Local
    }
}

/// How a row of the graph is shaded.
#[derive(Clone, Copy, Debug, PartialEq, Eq)]
pub enum RowShade {
    Selected,
    SearchHit,
    Even,
    Plain,
}

/// The shade of row `row`: the selected row, then search hits, then every
/// other row.
pub open spec fn spec_row_shade(row: usize, selected: Option<usize>, hits: Seq<usize>) -> RowShade {
    if selected == Some(row) {
        RowShade::Selected
    } else if hits.contains(row) {
        RowShade::SearchHit
    } else if row % 2 == 0 {
        RowShade::Even
    } else {
        RowShade::Plain
    }
}

/// The shade of a row of the graph.
pub fn row_shade(row: usize, selected: Option<usize>, hits: &Vec<usize>) -> (shade: RowShade)
    ensures
        shade == spec_row_shade(row, selected, hits@),
{
    let hit = holds_index(hits, row);
    match selected {
        Some(s) => {
            if s == row {
                return RowShade::Selected;
            }
        },
        None => {},
    }
    if hit {
        RowShade::SearchHit
    } else if row % 2 == 0 {
        RowShade::Even
    } else {
        RowShade::Plain
    }
}

/// Whether `v` holds `x`.
pub fn holds_index(v: &Vec<usize>, x: usize) -> (b: bool)
    ensures
        b == v@.contains(x),
{
    let mut k: usize = 0;
    while k < v.len()
        invariant
            k <= v@.len(),
            forall|q: int| 0 <= q < k ==> v@[q] != x,
        decreases v@.len() - k,
    {
        if v[k] == x {
            assert(v@[k as int] == x);
            return true;
        }
        k = k + 1;
    }
    false
}

// ── Numbers ───────────────────────────────────────────────────────────

/// The decimal digit for `d`.
pub open spec fn digit_char(d: nat) -> char {
    if d == 0 {
        '0'
    } else if d == 1 {
        '1'
    } else if d == 2 {
        '2'
    } else if d == 3 {
        '3'
    } else if d == 4 {
        '4'
    } else if d == 5 {
        '5'
    } else if d == 6 {
        '6'
    } else if d == 7 {
        '7'
    } else if d == 8 {
        '8'
    } else {
        '9'
    }
}

/// The decimal text of a number, without leading zeros.
pub open spec fn decimal(n: nat) -> Seq<char>
    decreases n,
{
    if n < 10 {
        seq![digit_char(n)]
    } else {
        decimal(n / 10).push(digit_char(n % 10))
    }
}

fn digit(d: usize) -> (c: char)
    requires
        d < 10,
    ensures
        c == digit_char(d as nat),
{
    match d {
        0 => '0',
        1 => '1',
        2 => '2',
        3 => '3',
        4 => '4',
        5 => '5',
        6 => '6',
        7 => '7',
        8 => '8',
        _ => '9',
    }
}

/// The decimal text of a number.
pub fn decimal_text(n: usize) -> (text: String)
    ensures
        text@ == decimal(n as nat),
    decreases n,
{
    if n < 10 {
        let mut s = String::new();
        push_char(&mut s, digit(n));
        assert(s@ =~= seq![digit_char(n as nat)]);
        s
    } else {
        let mut s = decimal_text(n / 10);
        push_char(&mut s, digit(n % 10));
        s
    }
}

/// The decimal text of a number, padded with spaces on the left to `width`
/// characters.
pub open spec fn pad_left(text: Seq<char>, width: nat) -> Seq<char> {
    if text.len() >= width {
        text
    } else {
        Seq::new((width - text.len()) as nat, |_i: int| ' ') + text
    }
}

/// A text padded with spaces on the right to `width` characters.
pub open spec fn pad_right(text: Seq<char>, width: nat) -> Seq<char> {
    if text.len() >= width {
        text
    } else {
        text + Seq::new((width - text.len()) as nat, |_i: int| ' ')
    }
}

fn padded(text: &str, width: usize, left: bool) -> (r: String)
    ensures
        r@ == if left { pad_left(text@, width as nat) } else { pad_right(text@, width as nat) },
{
    let cs = chars_of(text);
    if cs.len() >= width {
        return copy_text(text);
    }
    let fill = width - cs.len();
    let mut spaces: Vec<char> = Vec::new();
    let mut k: usize = 0;
    while k < fill
        invariant
            k <= fill,
            spaces@ =~= Seq::new(k as nat, |_i: int| ' '),
        decreases fill - k,
    {
        spaces.push(' ');
        k = k + 1;
    }
    let sp = string_of(&spaces);
    if left {
        joined(sp.as_str(), text)
    } else {
        joined(text, sp.as_str())
    }
}

/// The search counter `position/count`, empty when nothing matches.
pub fn search_counter(cursor: usize, count: usize) -> (text: String)
    requires
        count > 0 ==> cursor < count,
    ensures
        text@ == if count == 0 {
            Seq::<char>::empty()
        } else {
            decimal((cursor + 1) as nat) + seq!['/'] + decimal(count as nat)
        },
{
    if count == 0 {
        String::new()
    } else {
        let mut a = decimal_text(cursor + 1);
        push_char(&mut a, '/');
        let b = decimal_text(count);
        let r = joined(a.as_str(), b.as_str());
        r
    }
}

// ── The blame gutter ──────────────────────────────────────────────────

/// The texts shown beside a blamed line: the short id, the author cut to
/// twelve characters and padded to twelve, and the line number right-aligned
/// in four characters followed by a space.  A line from the same commit as
/// the line before shows blanks in place of the id and the author.
pub struct BlameGutter {
    pub sha: String,
    pub author: String,
    pub lineno: String,
}

/// The author column of the blame gutter: an author longer than twelve
/// characters is cut to twelve, and the column is padded to twelve.
pub open spec fn spec_gutter_author(author: Seq<char>) -> Seq<char> {
    let cut = if author.len() > 12 {
        author.take(12)
    } else {
        author
    };
    pad_right(cut, 12)
}

/// The gutter of a blamed line whose predecessor came from commit
/// `prev_commit` (empty for the first line).
pub open spec fn gutter_matches(g: BlameGutter, line: BlameLine, prev_commit: Seq<char>) -> bool {
    let same = line.commit_id@ == prev_commit;
    &&& g.sha@ == if same {
        Seq::new(8, |_i: int| ' ')
    } else {
        line.short_id@
    }
    &&& g.author@ == if same {
        pad_right(Seq::empty(), 12)
    } else {
        spec_gutter_author(line.author@)
    }
    &&& g.lineno@ == pad_left(decimal(line.lineno as nat), 4) + seq![' ']
}

/// The gutter of a blamed line whose predecessor came from commit
/// `prev_commit`.
fn gutter_for(bl: &BlameLine, prev_commit: &str) -> (g: BlameGutter)
    ensures
        gutter_matches(g, *bl, prev_commit@),
{
    let same = same_text(bl.commit_id.as_str(), prev_commit);
    let sha = if same {
        let e = String::new();
        let r = padded(e.as_str(), 8, false);
        assert(r@ =~= Seq::new(8, |_i: int| ' '));
        r
    } else {
        copy_text(bl.short_id.as_str())
    };
    let auth = if same {
        String::new()
    } else {
        prefix_chars(bl.author.as_str(), 12)
    };
    proof {
        if !same && bl.author@.len() == 12 {
            assert(bl.author@.take(12) =~= bl.author@);
        }
    }
    let author = padded(auth.as_str(), 12, false);
    let num = decimal_text(bl.lineno);
    let mut lineno = padded(num.as_str(), 4, true);
    let ghost before = lineno@;
    push_char(&mut lineno, ' ');
    assert(lineno@ =~= before + seq![' ']);
    BlameGutter { sha, author, lineno }
}

/// The gutters of the lines of a blame view.
pub fn blame_gutters(lines: &Vec<BlameLine>) -> (gutters: Vec<BlameGutter>)
    ensures
        gutters@.len() == lines@.len(),
        forall|k: int|
            0 <= k < lines@.len() ==> gutter_matches(
                #[trigger] gutters@[k],
                lines@[k],
                if k == 0 {
                    Seq::empty()
                } else {
                    lines@[k - 1].commit_id@
                },
            ),
{
    let mut gutters: Vec<BlameGutter> = Vec::new();
    let mut k: usize = 0;
    while k < lines.len()
        invariant
            k <= lines@.len(),
            gutters@.len() == k,
            forall|q: int|
                0 <= q < k ==> gutter_matches(
                    #[trigger] gutters@[q],
                    lines@[q],
                    if q == 0 {
                        Seq::empty()
                    } else {
                        lines@[q - 1].commit_id@
                    },
                ),
        decreases lines@.len() - k,
    {
        let g = if k == 0 {
            let e = String::new();
            gutter_for(&lines[k], e.as_str())
        } else {
            gutter_for(&lines[k], lines[k - 1].commit_id.as_str())
        };
        let ghost prev = gutters@;
        gutters.push(g);
        assert forall|q: int| 0 <= q < k + 1 implies gutter_matches(
            #[trigger] gutters@[q],
            lines@[q],
            if q == 0 {
                Seq::empty()
            } else {
                lines@[q - 1].commit_id@
            },
        ) by {
            if q < k {
                assert(gutters@[q] == prev[q]);
            }
        }
        k = k + 1;
    }
    gutters
}

// ── Texts of the detail pane ──────────────────────────────────────────

/// The author line of the commit header: the name, then the e-mail in
/// angle brackets.
pub fn author_line(author: &str, email: &str) -> (text: String)
    ensures
        text@ == author@ + " <"@ + email@ + ">"@,
{
    let a = joined(author, " <");
    let b = joined(a.as_str(), email);
    joined(b.as_str(), ">")
}

/// The label of a ref in the commit header: its name in square brackets.
pub fn ref_text(name: &str) -> (text: String)
    ensures
        text@ == "["@ + name@ + "]"@,
{
    let a = joined("[", name);
    joined(a.as_str(), "]")
}

/// The heading of the context menu: `Commit` and the short id.
pub fn menu_heading(short_id: &str) -> (text: String)
    ensures
        text@ == "Commit "@ + short_id@,
{
    joined("Commit ", short_id)
}

/// The heading of the file list: the number of changed files.
pub fn files_heading(count: usize) -> (text: String)
    ensures
        text@ == "Changed files ("@ + decimal(count as nat) + ")"@,
{
    let n = decimal_text(count);
    let a = joined("Changed files (", n.as_str());
    joined(a.as_str(), ")")
}

/// A parent id as the commit header shows it: its first eight bytes, or
/// all of it when it is shorter.  Those are its first eight characters when
/// they are ASCII, which the id's short form must be.
pub fn parent_text(id: &str) -> (text: String)
    requires
        short_prefix_ok(id@),
    ensures
        text@ == short_form(id@),
{
    prefix_chars(id, 8)
}

/// A count of added (`+`) or removed (`-`) lines in the file list.
pub fn line_count_text(sign: char, n: usize) -> (text: String)
    ensures
        text@ == seq![sign] + decimal(n as nat),
{
    let mut s = String::new();
    push_char(&mut s, sign);
    let d = decimal_text(n);
    let r = joined(s.as_str(), d.as_str());
    assert(s@ =~= seq![sign]);
    r
}

/// The sidebar colours the selected branch as selected; any other name that
/// holds a `/` (a remote branch such as `origin/main` or `upstream/main`) as
/// remote, and the rest as local.
pub proof fn branch_styles_follow_the_slash(name: Seq<char>, selected: bool)
    ensures
        (spec_branch_label_style(name, selected) == BranchLabelStyle::Selected) == selected,
        !selected ==> ((spec_branch_label_style(name, selected) == BranchLabelStyle::Remote)
            <==> name.contains('/')),
        !selected ==> ((spec_branch_label_style(name, selected) == BranchLabelStyle::Local)
            <==> !name.contains('/')),
{
    if !selected && is_prefix_of("origin/"@, name) {
        reveal_strlit("origin/");
        assert(name[6] == "origin/"@[6]);
    }
}

} // verus!
