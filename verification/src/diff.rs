//! The changes of a commit: the touched files with their line counts, and
//! the unified patch text.

use vstd::prelude::*;
use vstd::utf8::{valid_utf8, decode_utf8};
use crate::model::{CommitDiff, DiffFile};
use crate::refs::{opt_text, text_or, text_or_default};
use crate::text::{same_text, push_char, text_from_utf8};

verus! {

/// How a file changed, as the repository reports it.
#[derive(Clone, Copy, Debug, PartialEq, Eq)]
pub enum DeltaStatus {
    Added,
    Deleted,
    Modified,
    Renamed,
    Copied,
    Other,
}

/// A changed file, as the repository reports it.
pub struct RawDelta {
    pub status: DeltaStatus,
    /// The path after the change, when there is one.
    pub new_path: Option<String>,
    /// The path before the change, when there is one.
    pub old_path: Option<String>,
}

/// A line of the patch text, as the repository prints it: its origin mark
/// and its bytes.
pub struct RawPatchLine {
    pub origin: char,
    pub content: Vec<u8>,
}

/// A line of a file's hunks, as the repository reports it: the paths of its
/// file and its origin mark.
pub struct RawStatLine {
    pub new_path: Option<String>,
    pub old_path: Option<String>,
    pub origin: char,
}

/// The letter that shows a kind of change.
pub open spec fn spec_status_char(s: DeltaStatus) -> char {
    match s {
        DeltaStatus::Added => 'A',
        DeltaStatus::Deleted => 'D',
        DeltaStatus::Modified => 'M',
        DeltaStatus::Renamed => 'R',
        DeltaStatus::Copied => 'C',
        DeltaStatus::Other => '?',
    }
}

/// The letter that shows a kind of change.
pub fn status_char(s: DeltaStatus) -> (c: char)
    ensures
        c == spec_status_char(s),
{
    match s {
        DeltaStatus::Added => 'A',
        DeltaStatus::Deleted => 'D',
        DeltaStatus::Modified => 'M',
        DeltaStatus::Renamed => 'R',
        DeltaStatus::Copied => 'C',
        DeltaStatus::Other => '?',
    }
}

/// The path shown for a file: the new path, else the old one, else empty.
pub open spec fn shown_path(new_path: Option<String>, old_path: Option<String>) -> Seq<char> {
    match new_path {
        Some(p) => p@,
        None => text_or(old_path, ""@),
    }
}

/// The path shown for a file.
fn path_shown(new_path: &Option<String>, old_path: &Option<String>) -> (p: String)
    ensures
        p@ == shown_path(*new_path, *old_path),
{
    match new_path {
        Some(p) => p.clone(),
        None => text_or_default(old_path, ""),
    }
}

/// The index of the first path equal to `p`.
pub open spec fn first_with_path(paths: Seq<Seq<char>>, p: Seq<char>) -> Option<int> {
    if exists|k: int| 0 <= k < paths.len() && paths[k] == p {
        Some(choose|k: int| 0 <= k < paths.len() && paths[k] == p && forall|q: int| 0 <= q < k ==> paths[q] != p)
    } else {
        None
    }
}

/// The paths shown for a list of changed files.
pub open spec fn delta_paths(deltas: Seq<RawDelta>) -> Seq<Seq<char>> {
    deltas.map_values(|d: RawDelta| shown_path(d.new_path, d.old_path))
}

/// How many of the first `m` hunk lines have origin `origin` and count for
/// file `k`: the first file whose path is the line's path.
pub open spec fn count_lines(lines: Seq<RawStatLine>, paths: Seq<Seq<char>>, k: int, origin: char, m: int) -> nat
    decreases m,
{
    if m <= 0 {
        0
    } else {
        let l = lines[m - 1];
        count_lines(lines, paths, k, origin, m - 1) + if l.origin == origin && first_with_path(
            paths,
            shown_path(l.new_path, l.old_path),
        ) == Some(k) {
            1nat
        } else {
            0nat
        }
    }
}

/// The patch text of the first `m` printed lines: each line's origin mark
/// when it is `+`, `-` or a space, then its text when it is valid UTF-8.
pub open spec fn patch_text(lines: Seq<RawPatchLine>, m: int) -> Seq<char>
    decreases m,
{
    if m <= 0 {
        Seq::empty()
    } else {
        let l = lines[m - 1];
        let mark = if l.origin == '+' || l.origin == '-' || l.origin == ' ' {
            seq![l.origin]
        } else {
            Seq::empty()
        };
        let body = if valid_utf8(l.content@) {
            decode_utf8(l.content@)
        } else {
            Seq::empty()
        };
        patch_text(lines, m - 1) + mark + body
    }
}

/// File `f` shows changed file `k` of `deltas`, with the counts of the
/// added and removed lines that count for it.
pub open spec fn file_shows(f: DiffFile, deltas: Seq<RawDelta>, lines: Seq<RawStatLine>, k: int) -> bool {
    let d = deltas[k];
    let paths = delta_paths(deltas);
    &&& f.path@ == shown_path(d.new_path, d.old_path)
    &&& f.status == spec_status_char(d.status)
    &&& opt_text(f.old_path) == if d.status == DeltaStatus::Renamed {
        opt_text(d.old_path)
    } else {
        None
    }
    &&& f.additions == count_lines(lines, paths, k, '+', lines.len() as int)
    &&& f.deletions == count_lines(lines, paths, k, '-', lines.len() as int)
}

/// The patch text of a commit.
pub fn assemble_patch(lines: &Vec<RawPatchLine>) -> (patch: String)
    ensures
        patch@ == patch_text(lines@, lines@.len() as int),
{
    let mut patch = String::new();
    let mut m: usize = 0;
    while m < lines.len()
        invariant
            m <= lines@.len(),
            patch@ == patch_text(lines@, m as int),
        decreases lines@.len() - m,
    {
        let l = &lines[m];
        let ghost before = patch@;
        if l.origin == '+' || l.origin == '-' || l.origin == ' ' {
            push_char(&mut patch, l.origin);
        }
        let ghost marked = patch@;
        match text_from_utf8(l.content.as_slice()) {
            Some(s) => {
                patch.append(s.as_str());
            },
            None => {},
        }
        proof {
            let mark = if l.origin == '+' || l.origin == '-' || l.origin == ' ' {
                seq![l.origin]
            } else {
                Seq::<char>::empty()
            };
            assert(marked =~= before + mark);
            if !valid_utf8(l.content@) {
                assert(patch@ =~= before + mark + Seq::<char>::empty());
            }
        }
        m = m + 1;
    }
    patch
}

/// The views of a list of strings.
pub open spec fn paths_view(v: Seq<String>) -> Seq<Seq<char>> {
    v.map_values(|s: String| s@)
}

/// The index of the first path equal to `p`.
fn find_path(paths: &Vec<String>, p: &str) -> (idx: Option<usize>)
    ensures
        match idx {
            Some(k) => k < paths@.len() && first_with_path(paths_view(paths@), p@) == Some(k as int),
            None => first_with_path(paths_view(paths@), p@) is None,
        },
{
    let ghost pv = paths_view(paths@);
    let mut k: usize = 0;
    while k < paths.len()
        invariant
            k <= paths@.len(),
            pv == paths_view(paths@),
            forall|q: int| 0 <= q < k ==> pv[q] != p@,
        decreases paths@.len() - k,
    {
        if same_text(paths[k].as_str(), p) {
            assert(pv[k as int] == p@);
            let ghost w = choose|w: int| 0 <= w < pv.len() && pv[w] == p@ && forall|q: int| 0 <= q < w ==> pv[q] != p@;
            proof {
                assert(0 <= w < pv.len() && pv[w] == p@ && forall|q: int| 0 <= q < w ==> pv[q] != p@);
                if w < k {
                    assert(pv[w] != p@);
                } else if w > k {
                    assert(pv[k as int] != p@);
                }
            }
            return Some(k);
        }
        k = k + 1;
    }
    None
}

/// The paths shown for a list of changed files.
fn shown_paths(deltas: &Vec<RawDelta>) -> (paths: Vec<String>)
    ensures
        paths_view(paths@) == delta_paths(deltas@),
{
    let ghost paths_v = delta_paths(deltas@);
    let mut paths: Vec<String> = Vec::new();
    let mut k: usize = 0;
    while k < deltas.len()
        invariant
            k <= deltas@.len(),
            paths_v == delta_paths(deltas@),
            paths_view(paths@) == paths_v.take(k as int),
        decreases deltas@.len() - k,
    {
        let p = path_shown(&deltas[k].new_path, &deltas[k].old_path);
        let ghost prev = paths@;
        paths.push(p);
        assert(paths_view(paths@) =~= paths_view(prev).push(p@));
        assert(paths_v.take(k + 1) =~= paths_v.take(k as int).push(paths_v[k as int]));
        k = k + 1;
    }
    assert(paths_v.take(k as int) =~= paths_v);
    paths
}

/// For each path, how many hunk lines with origin `origin` count for it.
fn count_for_files(paths: &Vec<String>, lines: &Vec<RawStatLine>, origin: char) -> (counts: Vec<usize>)
    ensures
        counts@.len() == paths@.len(),
        forall|q: int|
            0 <= q < paths@.len() ==> #[trigger] counts@[q] == count_lines(
                lines@,
                paths_view(paths@),
                q,
                origin,
                lines@.len() as int,
            ),
{
    let ghost pv = paths_view(paths@);
    let mut counts: Vec<usize> = Vec::new();
    let mut k: usize = 0;
    while k < paths.len()
        invariant
            k <= paths@.len(),
            counts@.len() == k,
            forall|q: int| 0 <= q < k ==> counts@[q] == 0,
        decreases paths@.len() - k,
    {
        counts.push(0);
        k = k + 1;
    }
    let mut m: usize = 0;
    while m < lines.len()
        invariant
            m <= lines@.len(),
            pv == paths_view(paths@),
            counts@.len() == paths@.len(),
            forall|q: int|
                0 <= q < paths@.len() ==> #[trigger] counts@[q] == count_lines(lines@, pv, q, origin, m as int),
            forall|q: int| 0 <= q < paths@.len() ==> counts@[q] <= m,
        decreases lines@.len() - m,
    {
        let l = &lines[m];
        let ghost fp = first_with_path(pv, shown_path(l.new_path, l.old_path));
        let ghost before = counts@;
        if l.origin == origin {
            let np = path_shown(&l.new_path, &l.old_path);
            match find_path(paths, np.as_str()) {
                Some(i) => {
                    let c = counts[i] + 1;
                    counts.set(i, c);
                },
                None => {},
            }
        }
        proof {
            assert forall|q: int| 0 <= q < paths@.len() implies #[trigger] counts@[q] == count_lines(
                lines@,
                pv,
                q,
                origin,
                m + 1,
            ) && counts@[q] <= m + 1 by {
                assert(count_lines(lines@, pv, q, origin, m + 1) == count_lines(lines@, pv, q, origin, m as int)
                    + if lines@[m as int].origin == origin && fp == Some(q) { 1nat } else { 0nat });
                assert(before[q] == count_lines(lines@, pv, q, origin, m as int));
            }
        }
        m = m + 1;
    }
    counts
}

/// The files and patch text of a commit: one file per changed file, in
/// order, each line of a file's hunks counted for the first file with the
/// line's path.
pub fn assemble_diff(deltas: &Vec<RawDelta>, stat_lines: &Vec<RawStatLine>, patch_lines: &Vec<RawPatchLine>) -> (diff: CommitDiff)
    ensures
        diff.files@.len() == deltas@.len(),
        forall|k: int| 0 <= k < deltas@.len() ==> file_shows(#[trigger] diff.files@[k], deltas@, stat_lines@, k),
        diff.patch@ == patch_text(patch_lines@, patch_lines@.len() as int),
{
    let paths = shown_paths(deltas);
    let adds = count_for_files(&paths, stat_lines, '+');
    let dels = count_for_files(&paths, stat_lines, '-');
    let ghost paths_v = paths_view(paths@);
    assert(paths_v.len() == paths@.len());
    assert(delta_paths(deltas@).len() == deltas@.len());
    let mut files: Vec<DiffFile> = Vec::new();
    let mut k: usize = 0;
    while k < deltas.len()
        invariant
            k <= deltas@.len(),
            files@.len() == k,
            paths@.len() == deltas@.len(),
            paths_v == paths_view(paths@),
            paths_v == delta_paths(deltas@),
            adds@.len() == deltas@.len(),
            dels@.len() == deltas@.len(),
            forall|q: int| 0 <= q < deltas@.len() ==> #[trigger] adds@[q] == count_lines(stat_lines@, paths_v, q, '+', stat_lines@.len() as int),
            forall|q: int| 0 <= q < deltas@.len() ==> #[trigger] dels@[q] == count_lines(stat_lines@, paths_v, q, '-', stat_lines@.len() as int),
            forall|q: int| 0 <= q < k ==> file_shows(#[trigger] files@[q], deltas@, stat_lines@, q),
        decreases deltas@.len() - k,
    {
        let d = &deltas[k];
        let status = status_char(d.status);
        let old_path = match d.status {
            DeltaStatus::Renamed => match &d.old_path {
                Some(p) => Some(p.clone()),
                None => None,
            },
            _ => None,
        };
        let path = paths[k].clone();
        assert(path@ == paths_v[k as int]);
        let f = DiffFile { path, old_path, status, additions: adds[k], deletions: dels[k] };
        let ghost prev = files@;
        files.push(f);
        assert forall|q: int| 0 <= q < k + 1 implies file_shows(#[trigger] files@[q], deltas@, stat_lines@, q) by {
            if q < k {
                assert(files@[q] == prev[q]);
            }
        }
        k = k + 1;
    }
    let patch = assemble_patch(patch_lines);
    CommitDiff { files, patch }
}

/// The path a changed file or a hunk line is filed under: the new path,
/// else the old path, else nothing.
pub open spec fn filed_under(new_path: Option<String>, old_path: Option<String>) -> Seq<char> {
    match (new_path, old_path) {
        (Some(p), _) => p@,
        (None, Some(p)) => p@,
        (None, None) => Seq::empty(),
    }
}

/// Hunk line `l` counts for changed file `k`: `k` is the first of the
/// changed files filed under the line's path.
pub open spec fn line_counts_for(deltas: Seq<RawDelta>, l: RawStatLine, k: int) -> bool {
    let p = filed_under(l.new_path, l.old_path);
    &&& 0 <= k < deltas.len()
    &&& filed_under(deltas[k].new_path, deltas[k].old_path) == p
    &&& forall|j: int| 0 <= j < k ==> filed_under(deltas[j].new_path, deltas[j].old_path) != p
}

/// The hunk lines with origin `origin` that count for changed file `k`.
pub open spec fn counted_line(deltas: Seq<RawDelta>, k: int, origin: char) -> spec_fn(RawStatLine) -> bool {
    |l: RawStatLine| l.origin == origin && line_counts_for(deltas, l, k)
}

proof fn lemma_filed_under(new_path: Option<String>, old_path: Option<String>)
    ensures
        shown_path(new_path, old_path) == filed_under(new_path, old_path),
{
    reveal_strlit("");
}

proof fn lemma_first_exists(paths: Seq<Seq<char>>, p: Seq<char>, i: int)
    requires
        0 <= i < paths.len(),
        paths[i] == p,
    ensures
        exists|w: int| 0 <= w < paths.len() && paths[w] == p && forall|q: int| 0 <= q < w ==> paths[q] != p,
    decreases i,
{
    if exists|j: int| 0 <= j < i && paths[j] == p {
        let j = choose|j: int| 0 <= j < i && paths[j] == p;
        lemma_first_exists(paths, p, j);
    } else {
        assert(forall|q: int| 0 <= q < i ==> paths[q] != p);
    }
}

proof fn lemma_first_index(paths: Seq<Seq<char>>, p: Seq<char>, k: int)
    requires
        0 <= k < paths.len(),
    ensures
        (first_with_path(paths, p) == Some(k)) <==> (paths[k] == p && forall|j: int|
            0 <= j < k ==> paths[j] != p),
{
    if exists|i: int| 0 <= i < paths.len() && paths[i] == p {
        let i = choose|i: int| 0 <= i < paths.len() && paths[i] == p;
        lemma_first_exists(paths, p, i);
    }
    if paths[k] == p && forall|j: int| 0 <= j < k ==> paths[j] != p {
        let w = choose|w: int| 0 <= w < paths.len() && paths[w] == p && forall|q: int| 0 <= q < w ==> paths[q] != p;
        if w < k {
            assert(paths[w] != p);
        } else if w > k {
            assert(paths[k] != p);
        }
    }
}

proof fn lemma_first_with_path(deltas: Seq<RawDelta>, l: RawStatLine, k: int)
    requires
        0 <= k < deltas.len(),
    ensures
        (first_with_path(delta_paths(deltas), shown_path(l.new_path, l.old_path)) == Some(k))
            <==> line_counts_for(deltas, l, k),
{
    let paths = delta_paths(deltas);
    let p = shown_path(l.new_path, l.old_path);
    lemma_filed_under(l.new_path, l.old_path);
    assert forall|j: int| 0 <= j < deltas.len() implies #[trigger] paths[j] == filed_under(
        deltas[j].new_path,
        deltas[j].old_path,
    ) by {
        lemma_filed_under(deltas[j].new_path, deltas[j].old_path);
    }
    lemma_first_index(paths, p, k);
    if forall|j: int| 0 <= j < k ==> paths[j] != p {
        assert forall|j: int| 0 <= j < k implies filed_under(deltas[j].new_path, deltas[j].old_path) != p by {
            assert(paths[j] != p);
        }
    }
    if line_counts_for(deltas, l, k) {
        assert forall|j: int| 0 <= j < k implies paths[j] != p by {
            assert(filed_under(deltas[j].new_path, deltas[j].old_path) != p);
        }
    }
}

proof fn lemma_count_lines_filter(
    deltas: Seq<RawDelta>,
    lines: Seq<RawStatLine>,
    k: int,
    origin: char,
    m: int,
)
    requires
        0 <= k < deltas.len(),
        0 <= m <= lines.len(),
    ensures
        count_lines(lines, delta_paths(deltas), k, origin, m) == lines.take(m).filter(
            counted_line(deltas, k, origin),
        ).len(),
    decreases m,
{
    reveal(Seq::filter);
    if m == 0 {
        assert(lines.take(0) =~= Seq::<RawStatLine>::empty());
    } else {
        lemma_count_lines_filter(deltas, lines, k, origin, m - 1);
        lemma_first_with_path(deltas, lines[m - 1], k);
        assert(lines.take(m).drop_last() =~= lines.take(m - 1));
        assert(lines.take(m).last() == lines[m - 1]);
    }
}

/// Each changed file is filed under its new path (else its old path), and
/// its counts are the added and removed hunk lines filed under that same
/// path that no earlier changed file takes: a renamed file counts the lines
/// of its new path.
pub proof fn diff_counts_lines_by_path(deltas: Seq<RawDelta>, lines: Seq<RawStatLine>, diff: CommitDiff)
    requires
        diff.files@.len() == deltas.len(),
        forall|k: int| 0 <= k < deltas.len() ==> file_shows(#[trigger] diff.files@[k], deltas, lines, k),
    ensures
        forall|k: int| 0 <= k < deltas.len() ==> {
            let f = #[trigger] diff.files@[k];
            &&& f.path@ == filed_under(deltas[k].new_path, deltas[k].old_path)
            &&& f.additions == lines.filter(counted_line(deltas, k, '+')).len()
            &&& f.deletions == lines.filter(counted_line(deltas, k, '-')).len()
        },
{
    assert forall|k: int| 0 <= k < deltas.len() implies {
        let f = #[trigger] diff.files@[k];
        &&& f.path@ == filed_under(deltas[k].new_path, deltas[k].old_path)
        &&& f.additions == lines.filter(counted_line(deltas, k, '+')).len()
        &&& f.deletions == lines.filter(counted_line(deltas, k, '-')).len()
    } by {
        assert(file_shows(diff.files@[k], deltas, lines, k));
        lemma_filed_under(deltas[k].new_path, deltas[k].old_path);
        lemma_count_lines_filter(deltas, lines, k, '+', lines.len() as int);
        lemma_count_lines_filter(deltas, lines, k, '-', lines.len() as int);
        assert(lines.take(lines.len() as int) =~= lines);
    }
}

} // verus!
