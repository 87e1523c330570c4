//! The data model of a repository as the browser sees it.

use vstd::prelude::*;

verus! {

/// One commit of the history, as shown in the graph and the detail pane.
#[derive(Clone, Debug)]
pub struct Commit {
    pub id: String,
    pub short_id: String,
    pub summary: String,
    pub body: String,
    pub author: String,
    pub email: String,
    pub timestamp: i64,
    pub date_str: String,
    pub parents: Vec<String>,
    pub refs: Vec<RefLabel>,
}

/// A reference (branch, tag, remote branch) that points at a commit.
#[derive(Clone, Debug)]
pub struct RefLabel {
    pub name: String,
    pub kind: RefKind,
}

/// What kind of reference a label stands for.
#[derive(Clone, Copy, Debug, PartialEq, Eq)]
pub enum RefKind {
    /// The branch that HEAD is on.
    Head,
    Branch,
    Tag,
    Remote,
}

/// One file touched by a commit.
#[derive(Clone, Debug)]
pub struct DiffFile {
    pub path: String,
    /// The former path, for renames.
    pub old_path: Option<String>,
    /// One of `A`, `D`, `M`, `R`, `C` or `?`.
    pub status: char,
    pub additions: usize,
    pub deletions: usize,
}

/// The files and the unified patch text of one commit.
#[derive(Clone, Debug, Default)]
pub struct CommitDiff {
    pub files: Vec<DiffFile>,
    pub patch: String,
}

/// One line of a blame view.
#[derive(Clone, Debug)]
pub struct BlameLine {
    pub commit_id: String,
    pub short_id: String,
    pub author: String,
    pub date: String,
    pub lineno: usize,
    pub content: String,
}

/// The text of a reference label and its kind.
pub struct RefLabelView {
    pub name: Seq<char>,
    pub kind: RefKind,
}

impl View for RefLabel {
    type V = RefLabelView;

    open spec fn view(&self) -> RefLabelView {
        RefLabelView { name: self.name@, kind: self.kind }
    }
}

/// The identifiers of a list of commits.
pub open spec fn ids_of(commits: Seq<Commit>) -> Seq<Seq<char>> {
    commits.map_values(|c: Commit| c.id@)
}

/// The labels of a list of reference labels.
pub open spec fn labels_view(labels: Seq<RefLabel>) -> Seq<RefLabelView> {
    labels.map_values(|l: RefLabel| l@)
}

} // verus!
