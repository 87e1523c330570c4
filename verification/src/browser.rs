//! The state of the browser between frames, and the decisions that the
//! user's actions lead to: which commit is selected, what the search
//! matches, which diff and which blame must be loaded.
//!
//! Loading a diff or a blame reads the repository; a method that needs one
//! returns what to load, and the caller hands the result back.

use vstd::prelude::*;
use crate::model::{Commit, CommitDiff, BlameLine};
use crate::graph::{GraphLayout, spec_layout};
use crate::text::{
    contains, contains_text, starts_with, is_prefix_of, same_text, to_lowercase, lowercase,
    copy_text, joined,
};
use crate::display::{decimal_text, decimal};

verus! {

/// The tab of the lower left pane.
#[derive(Clone, Copy, Debug, PartialEq, Eq)]
pub enum BottomTab {
    Diff,
    Blame,
}

/// The browser's state.
pub struct Browser {
    pub commits: Vec<Commit>,
    pub graph: Option<GraphLayout>,
    pub selected_idx: Option<usize>,
    /// The diff of one commit, by commit id.
    pub diff_cache: Option<(String, CommitDiff)>,
    /// The blame of one file, by commit id and path.
    pub blame_cache: Option<(String, String, Vec<BlameLine>)>,
    pub search_query: String,
    /// The rows that match the search, in list order.
    pub search_matches: Vec<usize>,
    /// The position of the current match among the matches.
    pub search_cursor: usize,
    /// `summary`, `author` or `sha`; anything else searches like `summary`.
    pub search_field: String,
    pub max_commits: usize,
    pub selected_file: Option<usize>,
    pub bottom_tab: BottomTab,
    pub branches: Vec<String>,
    pub branch_filter: String,
    pub status_msg: String,
    pub error: Option<String>,
}

/// Whether commit `c` matches the lowercased query `q` in search field
/// `field`: the author's name or e-mail, the id or short id by prefix, or
/// else the summary or body.
pub open spec fn spec_commit_hits(c: Commit, field: Seq<char>, q: Seq<char>) -> bool {
    if field == "author"@ {
        contains_text(lowercase(c.author@), q) || contains_text(lowercase(c.email@), q)
    } else if field == "sha"@ {
        is_prefix_of(q, c.id@) || is_prefix_of(q, c.short_id@)
    } else {
        contains_text(lowercase(c.summary@), q) || contains_text(lowercase(c.body@), q)
    }
}

/// The rows below `k` that match the lowercased query `q`, in order.
pub open spec fn search_hits(commits: Seq<Commit>, field: Seq<char>, q: Seq<char>, k: int) -> Seq<usize>
    decreases k,
{
    if k <= 0 {
        Seq::empty()
    } else {
        let prev = search_hits(commits, field, q, k - 1);
        if spec_commit_hits(commits[k - 1], field, q) {
            prev.push((k - 1) as usize)
        } else {
            prev
        }
    }
}

/// The match position after one step forward or back among `n` matches,
/// wrapping around at either end.
pub open spec fn step_cursor(forward: bool, cursor: usize, n: usize) -> usize {
    if forward {
        ((cursor + 1) % (n as int)) as usize
    } else if cursor == 0 {
        (n - 1) as usize
    } else {
        (cursor - 1) as usize
    }
}

/// What must be loaded to show the diff of commit `id` with the diff cache
/// `cache`: nothing when the cache holds it, else that commit's diff.
pub open spec fn diff_request(cache: Option<(String, CommitDiff)>, id: Seq<char>) -> Option<Seq<char>> {
    match cache {
        Some(entry) => if entry.0@ == id {
            None
        } else {
            Some(id)
        },
        None => Some(id),
    }
}

/// The view of an optional text.
pub open spec fn opt_view(o: Option<String>) -> Option<Seq<char>> {
    match o {
        Some(s) => Some(s@),
        None => None,
    }
}

/// The view of an optional pair of texts.
pub open spec fn pair_view(o: Option<(String, String)>) -> Option<(Seq<char>, Seq<char>)> {
    match o {
        Some(p) => Some((p.0@, p.1@)),
        None => None,
    }
}

impl Browser {
    /// `b` holds the same repository data, search and status as `self`.
    pub open spec fn same_data(&self, b: &Browser) -> bool {
        &&& b.commits == self.commits
        &&& b.graph == self.graph
        &&& b.branches == self.branches
        &&& b.branch_filter == self.branch_filter
        &&& b.status_msg == self.status_msg
        &&& b.error == self.error
        &&& b.max_commits == self.max_commits
        &&& b.search_query == self.search_query
        &&& b.search_field == self.search_field
    }

    /// The state is consistent: the selection, the matches and the selected
    /// file point into what is loaded.
    pub open spec fn wf(&self) -> bool {
        &&& (self.selected_idx matches Some(i) ==> i < self.commits@.len())
        &&& (forall|k: int|
            0 <= k < self.search_matches@.len() ==> #[trigger] self.search_matches@[k]
                < self.commits@.len())
        &&& (self.search_matches@.len() > 0 ==> self.search_cursor < self.search_matches@.len())
        &&& (self.selected_file matches Some(fi) ==> (self.diff_cache matches Some(entry) ==> fi
            < entry.1.files@.len()))
    }

    /// The path of the selected file, when a commit and a file are selected.
    pub open spec fn blame_target(&self) -> Option<(Seq<char>, Seq<char>)> {
        match (self.selected_idx, self.selected_file) {
            (Some(ci), Some(fi)) => Some(
                (
                    self.commits@[ci as int].id@,
                    match self.diff_cache {
                        Some(entry) => entry.1.files@[fi as int].path@,
                        None => Seq::empty(),
                    },
                ),
            ),
            _ => None,
        }
    }

    /// What must be loaded to show the blame of the selected file: nothing
    /// when no file is selected or the cache holds its blame.
    pub open spec fn spec_blame_request(&self) -> Option<(Seq<char>, Seq<char>)> {
        match self.blame_target() {
            Some(t) => match self.blame_cache {
                Some(entry) => if entry.0@ == t.0 && entry.1@ == t.1 {
                    None
                } else {
                    Some(t)
                },
                None => Some(t),
            },
            None => None,
        }
    }

    /// The state with row `idx` selected: no file selected and the diff
    /// tab shown, all else as in `self`.
    pub open spec fn selecting(self, idx: usize) -> Browser {
        Browser { selected_idx: Some(idx), selected_file: None, bottom_tab: BottomTab::Diff, ..self }
    }

    /// `new` is `self` after running the search, which gave `request`:
    /// with an empty lowercased query the matches are cleared and nothing
    /// else changes; else the matches are the rows that match, the cursor is
    /// on the first, and the first, if any, is selected.
    pub open spec fn searched(self, new: Browser, request: Option<String>) -> bool {
        let q = lowercase(self.search_query@);
        let hits = search_hits(self.commits@, self.search_field@, q, self.commits@.len() as int);
        if q.len() == 0 {
            &&& new.search_matches@.len() == 0
            &&& new == (Browser { search_matches: new.search_matches, ..self })
            &&& request is None
        } else {
            let after = Browser { search_matches: new.search_matches, search_cursor: 0, ..self };
            &&& new.search_matches@ == hits
            &&& if hits.len() > 0 {
                &&& new == after.selecting(hits[0])
                &&& opt_view(request) == diff_request(self.diff_cache, self.commits@[hits[0] as int].id@)
            } else {
                &&& new == after
                &&& request is None
            }
        }
    }

    /// A browser with nothing loaded.
    pub fn new() -> (b: Self)
        ensures
            b.wf(),
            b.commits@.len() == 0,
            b.graph is None,
            b.selected_idx is None,
            b.diff_cache is None,
            b.blame_cache is None,
            b.search_query@.len() == 0,
            b.search_matches@.len() == 0,
            b.search_cursor == 0,
            b.search_field@ == "summary"@,
            b.max_commits == 5000,
            b.selected_file is None,
            b.bottom_tab == BottomTab::Diff,
            b.branches@.len() == 0,
            b.branch_filter@ == "(all)"@,
            b.status_msg@.len() == 0,
            b.error is None,
    {
        Browser {
            commits: Vec::new(),
            graph: None,
            selected_idx: None,
            diff_cache: None,
            blame_cache: None,
            search_query: String::new(),
            search_matches: Vec::new(),
            search_cursor: 0,
            search_field: copy_text("summary"),
            max_commits: 5000,
            selected_file: None,
            bottom_tab: BottomTab::Diff,
            branches: Vec::new(),
            branch_filter: copy_text("(all)"),
            status_msg: String::new(),
            error: None,
        }
    }

    /// Selects row `idx`, shows its diff, and says which diff must be
    /// loaded for it.
    pub fn select_commit(&mut self, idx: usize) -> (request: Option<String>)
        requires
            old(self).wf(),
            idx < old(self).commits@.len(),
        ensures
            final(self).wf(),
            final(self).selected_idx == Some(idx),
            final(self).selected_file is None,
            final(self).bottom_tab == BottomTab::Diff,
            opt_view(request) == diff_request(old(self).diff_cache, old(self).commits@[idx as int].id@),
            old(self).same_data(&*final(self)),
            final(self).diff_cache == old(self).diff_cache,
            final(self).blame_cache == old(self).blame_cache,
            final(self).search_matches == old(self).search_matches,
            final(self).search_cursor == old(self).search_cursor,
            *final(self) == old(self).selecting(idx),
    {
        self.selected_idx = Some(idx);
        self.selected_file = None;
        self.bottom_tab = BottomTab::Diff;
        let id = copy_text(self.commits[idx].id.as_str());
        let cached = match &self.diff_cache {
            Some(entry) => same_text(entry.0.as_str(), id.as_str()),
            None => false,
        };
        if cached {
            None
        } else {
            Some(id)
        }
    }

    /// Keeps the diff of commit `id`.
    pub fn store_diff(&mut self, id: String, diff: CommitDiff)
        requires
            old(self).wf(),
            old(self).selected_file is None,
        ensures
            final(self).wf(),
            final(self).diff_cache == Some((id, diff)),
            final(self).commits == old(self).commits,
            final(self).selected_idx == old(self).selected_idx,
            final(self).selected_file is None,
            *final(self) == (Browser { diff_cache: Some((id, diff)), ..*old(self) }),
    {
        self.diff_cache = Some((id, diff));
    }

    /// Whether a commit matches the lowercased query `q` in field `field`.
    fn commit_hits(c: &Commit, field: &str, q: &str) -> (hit: bool)
        ensures
            hit == spec_commit_hits(*c, field@, q@),
    {
        if same_text(field, "author") {
            let a = to_lowercase(c.author.as_str());
            let e = to_lowercase(c.email.as_str());
            contains(a.as_str(), q) || contains(e.as_str(), q)
        } else if same_text(field, "sha") {
            starts_with(c.id.as_str(), q) || starts_with(c.short_id.as_str(), q)
        } else {
            let s = to_lowercase(c.summary.as_str());
            let b = to_lowercase(c.body.as_str());
            contains(s.as_str(), q) || contains(b.as_str(), q)
        }
    }

    /// Runs the search: with an empty query there are no matches; else the
    /// matches are the rows whose commits match the lowercased query, the
    /// first of them is the current match and is selected.
    pub fn run_search(&mut self) -> (request: Option<String>)
        requires
            old(self).wf(),
        ensures
            final(self).wf(),
            ({
                let q = lowercase(old(self).search_query@);
                let hits = search_hits(
                    old(self).commits@,
                    old(self).search_field@,
                    q,
                    old(self).commits@.len() as int,
                );
                if q.len() == 0 {
                    &&& final(self).search_matches@.len() == 0
                    &&& request is None
                    &&& final(self).selected_idx == old(self).selected_idx
                } else {
                    &&& final(self).search_matches@ == hits
                    &&& final(self).search_cursor == 0
                    &&& if hits.len() > 0 {
                        &&& final(self).selected_idx == Some(hits[0])
                        &&& opt_view(request) == diff_request(
                            old(self).diff_cache,
                            old(self).commits@[hits[0] as int].id@,
                        )
                    } else {
                        &&& request is None
                        &&& final(self).selected_idx == old(self).selected_idx
                    }
                }
            }),
            final(self).commits == old(self).commits,
            final(self).diff_cache == old(self).diff_cache,
            final(self).search_query == old(self).search_query,
            final(self).search_field == old(self).search_field,
            old(self).searched(*final(self), request),
    {
        let q = to_lowercase(self.search_query.as_str());
        if q.as_str().is_empty() {
            self.search_matches = Vec::new();
            return None;
        }
        let mut hits: Vec<usize> = Vec::new();
        let mut k: usize = 0;
        while k < self.commits.len()
            invariant
                k <= self.commits@.len(),
                hits@ == search_hits(self.commits@, self.search_field@, q@, k as int),
                forall|j: int| 0 <= j < hits@.len() ==> #[trigger] hits@[j] < k,
            decreases self.commits@.len() - k,
        {
            if Self::commit_hits(&self.commits[k], self.search_field.as_str(), q.as_str()) {
                hits.push(k);
            }
            k = k + 1;
        }
        self.search_matches = hits;
        self.search_cursor = 0;
        if self.search_matches.len() > 0 {
            let first = self.search_matches[0];
            self.select_commit(first)
        } else {
            None
        }
    }

    /// Moves to the next or previous match, wrapping around, and selects it.
    pub fn search_step(&mut self, forward: bool) -> (request: Option<String>)
        requires
            old(self).wf(),
        ensures
            final(self).wf(),
            old(self).search_matches@.len() == 0 ==> request is None && *final(self) == *old(self),
            old(self).search_matches@.len() > 0 ==> ({
                let c = step_cursor(forward, old(self).search_cursor, old(self).search_matches@.len() as usize);
                let row = old(self).search_matches@[c as int];
                &&& final(self).search_cursor == c
                &&& final(self).selected_idx == Some(row)
                &&& *final(self) == (Browser { search_cursor: c, ..*old(self) }).selecting(row)
                &&& opt_view(request) == diff_request(old(self).diff_cache, old(self).commits@[row as int].id@)
            }),
            final(self).search_matches == old(self).search_matches,
            final(self).commits == old(self).commits,
    {
        let n = self.search_matches.len();
        if n == 0 {
            return None;
        }
        if forward {
            self.search_cursor = (self.search_cursor + 1) % n;
        } else {
            self.search_cursor = if self.search_cursor >= 1 {
                self.search_cursor - 1
            } else {
                n - 1
            };
        }
        let idx = self.search_matches[self.search_cursor];
        self.select_commit(idx)
    }

    /// Which blame must be loaded to show the selected file: nothing when no
    /// commit or file is selected or the cache holds it.
    pub fn blame_request(&self) -> (request: Option<(String, String)>)
        requires
            self.wf(),
        ensures
            pair_view(request) == self.spec_blame_request(),
    {
        let (ci, fi) = match (self.selected_idx, self.selected_file) {
            (Some(ci), Some(fi)) => (ci, fi),
            _ => {
                return None;
            },
        };
        let cid = copy_text(self.commits[ci].id.as_str());
        let path = match &self.diff_cache {
            Some(entry) => copy_text(entry.1.files[fi].path.as_str()),
            None => String::new(),
        };
        let cached = match &self.blame_cache {
            Some(entry) => same_text(entry.0.as_str(), cid.as_str()) && same_text(
                entry.1.as_str(),
                path.as_str(),
            ),
            None => false,
        };
        if cached {
            None
        } else {
            Some((cid, path))
        }
    }

    /// Keeps the blame of file `path` at commit `commit_id`.
    pub fn store_blame(&mut self, commit_id: String, path: String, lines: Vec<BlameLine>)
        requires
            old(self).wf(),
        ensures
            final(self).wf(),
            final(self).blame_cache == Some((commit_id, path, lines)),
            final(self).selected_idx == old(self).selected_idx,
            final(self).selected_file == old(self).selected_file,
            final(self).diff_cache == old(self).diff_cache,
            final(self).commits == old(self).commits,
            *final(self) == (Browser { blame_cache: Some((commit_id, path, lines)), ..*old(self) }),
    {
        self.blame_cache = Some((commit_id, path, lines));
    }

    /// Selects file `i` of the shown diff; on the blame tab, says which
    /// blame must be loaded for it.
    pub fn select_file(&mut self, i: usize) -> (request: Option<(String, String)>)
        requires
            old(self).wf(),
            old(self).diff_cache matches Some(entry) && i < entry.1.files@.len(),
        ensures
            final(self).wf(),
            final(self).selected_file == Some(i),
            pair_view(request) == if old(self).bottom_tab == BottomTab::Blame {
                final(self).spec_blame_request()
            } else {
                None
            },
            final(self).selected_idx == old(self).selected_idx,
            final(self).bottom_tab == old(self).bottom_tab,
            *final(self) == (Browser { selected_file: Some(i), ..*old(self) }),
    {
        self.selected_file = Some(i);
        match self.bottom_tab {
            BottomTab::Blame => self.blame_request(),
            BottomTab::Diff => None,
        }
    }

    /// Shows the diff tab.
    pub fn show_diff_tab(&mut self)
        requires
            old(self).wf(),
        ensures
            final(self).wf(),
            final(self).bottom_tab == BottomTab::Diff,
            final(self).selected_idx == old(self).selected_idx,
            final(self).selected_file == old(self).selected_file,
            *final(self) == (Browser { bottom_tab: BottomTab::Diff, ..*old(self) }),
    {
        self.bottom_tab = BottomTab::Diff;
    }

    /// Shows the blame tab, and says which blame must be loaded for it.
    pub fn show_blame_tab(&mut self) -> (request: Option<(String, String)>)
        requires
            old(self).wf(),
        ensures
            final(self).wf(),
            final(self).bottom_tab == BottomTab::Blame,
            pair_view(request) == final(self).spec_blame_request(),
            final(self).selected_idx == old(self).selected_idx,
            final(self).selected_file == old(self).selected_file,
            *final(self) == (Browser { bottom_tab: BottomTab::Blame, ..*old(self) }),
    {
        self.bottom_tab = BottomTab::Blame;
        self.blame_request()
    }

    /// Selects the row below the selected one, if there is one.
    pub fn select_next(&mut self) -> (request: Option<String>)
        requires
            old(self).wf(),
        ensures
            final(self).wf(),
            match old(self).selected_idx {
                Some(i) => if i + 1 < old(self).commits@.len() {
                    &&& final(self).selected_idx == Some((i + 1) as usize)
                    &&& *final(self) == old(self).selecting((i + 1) as usize)
                    &&& opt_view(request) == diff_request(old(self).diff_cache, old(self).commits@[i + 1].id@)
                } else {
                    request is None && *final(self) == *old(self)
                },
                None => request is None && *final(self) == *old(self),
            },
    {
        match self.selected_idx {
            Some(i) => {
                if i < self.commits.len() - 1 {
                    self.select_commit(i + 1)
                } else {
                    None
                }
            },
            None => None,
        }
    }

    /// Selects the row above the selected one, if there is one.
    pub fn select_prev(&mut self) -> (request: Option<String>)
        requires
            old(self).wf(),
        ensures
            final(self).wf(),
            match old(self).selected_idx {
                Some(i) => if i > 0 {
                    &&& final(self).selected_idx == Some((i - 1) as usize)
                    &&& *final(self) == old(self).selecting((i - 1) as usize)
                    &&& opt_view(request) == diff_request(old(self).diff_cache, old(self).commits@[i - 1].id@)
                } else {
                    request is None && *final(self) == *old(self)
                },
                None => request is None && *final(self) == *old(self),
            },
    {
        match self.selected_idx {
            Some(i) => {
                if i > 0 {
                    self.select_commit(i - 1)
                } else {
                    None
                }
            },
            None => None,
        }
    }

    /// Searches for the commits by the author of row `idx`.
    pub fn find_author(&mut self, idx: usize) -> (request: Option<String>)
        requires
            old(self).wf(),
            idx < old(self).commits@.len(),
        ensures
            final(self).wf(),
            final(self).search_query@ == old(self).commits@[idx as int].author@,
            final(self).search_field@ == "author"@,
            ({
                let q = lowercase(old(self).commits@[idx as int].author@);
                let hits = search_hits(old(self).commits@, "author"@, q, old(self).commits@.len() as int);
                q.len() > 0 ==> final(self).search_matches@ == hits
            }),
            (Browser { search_query: final(self).search_query, search_field: final(self).search_field, ..*old(self) }).searched(*final(self), request),
    {
        self.search_query = copy_text(self.commits[idx].author.as_str());
        self.search_field = copy_text("author");
        self.run_search()
    }

    /// Records that the repository could not be opened.
    pub fn open_failed(&mut self, reason: &str)
        ensures
            final(self).error matches Some(e) && e@ == "Cannot open repository: "@ + reason@,
            final(self).commits == old(self).commits,
            final(self).selected_idx == old(self).selected_idx,
            *final(self) == (Browser { error: final(self).error, ..*old(self) }),
    {
        self.error = Some(joined("Cannot open repository: ", reason));
    }

    /// Shows a freshly loaded repository: its commits laid out, its
    /// branches, a status line, no cached diff or blame, no selection or
    /// matches, and the first commit selected when there is one.
    pub fn install(&mut self, commits: Vec<Commit>, branches: Vec<String>, name: &str, head: &str) -> (request: Option<String>)
        requires
            old(self).wf(),
        ensures
            final(self).wf(),
            final(self).commits == commits,
            final(self).branches == branches,
            final(self).graph matches Some(g) && g@ == spec_layout(commits@),
            final(self).error is None,
            final(self).status_msg@ == name@ + " on "@ + head@ + " \u{2014} "@ + decimal(commits@.len() as nat) + " commits"@,
            final(self).search_matches@.len() == 0,
            final(self).blame_cache is None,
            commits@.len() == 0 ==> request is None && final(self).selected_idx is None && final(self).diff_cache is None,
            commits@.len() > 0 ==> final(self).selected_idx == Some(0usize) && opt_view(request) == Some(commits@[0].id@),
            ({
                let loaded = Browser {
                    commits: commits,
                    graph: final(self).graph,
                    branches: branches,
                    status_msg: final(self).status_msg,
                    error: None,
                    diff_cache: None,
                    blame_cache: None,
                    selected_idx: None,
                    search_matches: final(self).search_matches,
                    ..*old(self)
                };
                if commits@.len() > 0 {
                    *final(self) == loaded.selecting(0)
                } else {
                    *final(self) == loaded
                }
            }),
    {
        let graph = GraphLayout::compute(commits.as_slice());
        let count = decimal_text(commits.len());
        let a = joined(name, " on ");
        let b = joined(a.as_str(), head);
        let c = joined(b.as_str(), " \u{2014} ");
        let d = joined(c.as_str(), count.as_str());
        let msg = joined(d.as_str(), " commits");
        self.branches = branches;
        self.status_msg = msg;
        self.commits = commits;
        self.graph = Some(graph);
        self.error = None;
        self.diff_cache = None;
        self.blame_cache = None;
        self.selected_idx = None;
        self.search_matches = Vec::new();
        if self.commits.len() > 0 {
            self.select_commit(0)
        } else {
            None
        }
    }
}

/// Stepping forward and then back among the matches returns to the same
/// match, and so does stepping back and then forward.
pub proof fn search_steps_undo(cursor: usize, n: usize)
    requires
        cursor < n,
    ensures
        step_cursor(false, step_cursor(true, cursor, n), n) == cursor,
        step_cursor(true, step_cursor(false, cursor, n), n) == cursor,
{
    if cursor + 1 < n {
        vstd::arithmetic::div_mod::lemma_small_mod((cursor + 1) as nat, n as nat);
    } else {
        assert((cursor + 1) % (n as int) == 0) by {
            vstd::arithmetic::div_mod::lemma_small_mod(0, n as nat);
            assert(cursor + 1 == n);
        }
    }
    if cursor > 0 {
        vstd::arithmetic::div_mod::lemma_small_mod(cursor as nat, n as nat);
    } else {
        assert(((n - 1) + 1) % (n as int) == 0) by {
            assert((n as int) % (n as int) == 0) by (nonlinear_arith)
                requires
                    n > 0,
            ;
        }
    }
}

/// A diff that the cache holds is not loaded again.
pub proof fn cached_diff_not_reloaded(id: String, diff: CommitDiff)
    ensures
        diff_request(Some((id, diff)), id@) is None,
{
}

/// The match position after `k` steps forward among `n` matches from
/// `cursor`.
pub open spec fn forward_steps(cursor: usize, n: usize, k: nat) -> usize
    decreases k,
{
    if k == 0 {
        cursor
    } else {
        step_cursor(true, forward_steps(cursor, n, (k - 1) as nat), n)
    }
}

proof fn lemma_forward_steps(cursor: usize, n: usize, k: nat)
    requires
        cursor < n,
    ensures
        forward_steps(cursor, n, k) == (cursor + k) % (n as int),
    decreases k,
{
    if k == 0 {
        vstd::arithmetic::div_mod::lemma_small_mod(cursor as nat, n as nat);
    } else {
        lemma_forward_steps(cursor, n, (k - 1) as nat);
        let a: int = cursor + k - 1;
        let prev = forward_steps(cursor, n, (k - 1) as nat);
        vstd::arithmetic::div_mod::lemma_mod_bound(a, n as int);
        assert(prev == a % (n as int));
        vstd::arithmetic::div_mod::lemma_add_mod_noop(a, 1, n as int);
        if n == 1 {
            vstd::arithmetic::div_mod::lemma_mod_self_0(1);
        } else {
            vstd::arithmetic::div_mod::lemma_small_mod(1, n as nat);
        }
        vstd::arithmetic::div_mod::lemma_mod_bound(prev + 1, n as int);
        assert(forward_steps(cursor, n, k) == ((prev + 1) % (n as int)) as usize);
    }
}

/// Stepping forward as many times as there are matches returns to the same
/// match.
pub proof fn search_steps_cycle(cursor: usize, n: usize)
    requires
        cursor < n,
    ensures
        forward_steps(cursor, n, n as nat) == cursor,
{
    lemma_forward_steps(cursor, n, n as nat);
    vstd::arithmetic::div_mod::lemma_add_mod_noop(cursor as int, n as int, n as int);
    vstd::arithmetic::div_mod::lemma_mod_self_0(n as int);
    vstd::arithmetic::div_mod::lemma_small_mod(cursor as nat, n as nat);
}

proof fn lemma_search_hits(commits: Seq<Commit>, field: Seq<char>, q: Seq<char>, k: int)
    requires
        0 <= k <= commits.len(),
        commits.len() <= usize::MAX,
    ensures
        forall|a: int, c: int|
            0 <= a < c < search_hits(commits, field, q, k).len() ==> #[trigger] search_hits(
                commits,
                field,
                q,
                k,
            )[a] < #[trigger] search_hits(commits, field, q, k)[c],
        forall|a: int|
            0 <= a < search_hits(commits, field, q, k).len() ==> #[trigger] search_hits(
                commits,
                field,
                q,
                k,
            )[a] < k,
        forall|r: usize|
            search_hits(commits, field, q, k).contains(r) <==> (r < k && spec_commit_hits(
                commits[r as int],
                field,
                q,
            )),
    decreases k,
{
    if k > 0 {
        lemma_search_hits(commits, field, q, k - 1);
        let prev = search_hits(commits, field, q, k - 1);
        let cur = search_hits(commits, field, q, k);
        if spec_commit_hits(commits[k - 1], field, q) {
            assert(cur == prev.push((k - 1) as usize));
            assert forall|r: usize| cur.contains(r) <==> (r < k && spec_commit_hits(commits[r as int], field, q)) by {
                if r == (k - 1) as usize {
                    assert(cur[prev.len() as int] == r);
                }
                if cur.contains(r) && r != (k - 1) as usize {
                    let w = choose|w: int| 0 <= w < cur.len() && cur[w] == r;
                    assert(prev[w] == r);
                }
                if prev.contains(r) {
                    let w = choose|w: int| 0 <= w < prev.len() && prev[w] == r;
                    assert(cur[w] == r);
                }
            }
        }
    }
}

/// A search with a non-empty query matches exactly the rows whose commit
/// holds the lowercased query: in the author's name or e-mail for the
/// `author` field, at the start of the id or short id for `sha`, and in the
/// summary or the body for `summary` (and any other field).  The matches
/// are listed in row order.
pub proof fn search_matches_exactly_the_matching_rows(b: Browser, after: Browser, request: Option<String>)
    requires
        b.searched(after, request),
        lowercase(b.search_query@).len() > 0,
        b.commits@.len() <= usize::MAX,
    ensures
        forall|a: int, c: int|
            0 <= a < c < after.search_matches@.len() ==> #[trigger] after.search_matches@[a]
                < #[trigger] after.search_matches@[c],
        forall|r: usize| #![trigger after.search_matches@.contains(r)]
            after.search_matches@.contains(r) <==> r < b.commits@.len() && ({
                let c = b.commits@[r as int];
                let q = lowercase(b.search_query@);
                if b.search_field@ == "author"@ {
                    contains_text(lowercase(c.author@), q) || contains_text(lowercase(c.email@), q)
                } else if b.search_field@ == "sha"@ {
                    is_prefix_of(q, c.id@) || is_prefix_of(q, c.short_id@)
                } else {
                    contains_text(lowercase(c.summary@), q) || contains_text(lowercase(c.body@), q)
                }
            }),
{
    let q = lowercase(b.search_query@);
    lemma_search_hits(b.commits@, b.search_field@, q, b.commits@.len() as int);
}

/// When a commit and one of its diff's files are selected, the blame to load
/// is that commit's blame of that file's path, unless the cache holds the
/// blame of exactly that commit and that path; with no commit or no file
/// selected nothing is loaded.
pub proof fn blame_request_follows_the_selected_file(b: Browser)
    requires
        b.wf(),
    ensures
        (b.selected_idx is None || b.selected_file is None) ==> b.spec_blame_request() is None,
        (b.selected_idx, b.selected_file, b.diff_cache) matches (Some(ci), Some(fi), Some(d)) ==> ({
            let id = b.commits@[ci as int].id@;
            let path = d.1.files@[fi as int].path@;
            let cached = b.blame_cache matches Some(c) && c.0@ == id && c.1@ == path;
            &&& cached ==> b.spec_blame_request() is None
            &&& !cached ==> b.spec_blame_request() == Some((id, path))
        }),
{
}

/// Once the requested blame is stored, no blame is requested any more.
pub proof fn stored_blame_is_not_requested_again(
    b: Browser,
    commit_id: String,
    path: String,
    lines: Vec<BlameLine>,
)
    requires
        b.wf(),
        b.spec_blame_request() == Some((commit_id@, path@)),
    ensures
        (Browser { blame_cache: Some((commit_id, path, lines)), ..b }).spec_blame_request() is None,
{
}

} // verus!
