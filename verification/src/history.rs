//! The commit list: what the repository reports of each commit in the
//! revision walk, turned into the commits the browser shows.

use vstd::prelude::*;
use crate::model::{Commit, labels_view};
use crate::refs::{RawRef, HeadInfo, labels_for, text_or, text_or_default, build_ref_map, copy_labels};
use crate::text::{copy_text, prefix_chars, texts_view};
use crate::clock::{format_timestamp, shows_time};

verus! {

/// A commit as the repository reports it.
pub struct RawCommit {
    /// The full hexadecimal commit id.
    pub id: String,
    /// The first line of the message, when it is valid UTF-8.
    pub summary: Option<String>,
    /// The rest of the message, when there is one and it is valid UTF-8.
    pub body: Option<String>,
    pub author_name: Option<String>,
    pub author_email: Option<String>,
    /// The author time, in seconds after the epoch.
    pub time: i64,
    /// The ids of the parents, in order.
    pub parents: Vec<String>,
}

/// An id whose first eight characters can be cut off as the short id: it has
/// at least eight characters and they are ASCII.
pub open spec fn short_id_ok(id: Seq<char>) -> bool {
    id.len() >= 8 && forall|k: int| 0 <= k < 8 ==> (id[k] as u32) < 128
}

/// The commits of a walk that could be read, in walk order.
pub open spec fn present(walk: Seq<Option<RawCommit>>) -> Seq<RawCommit>
    decreases walk.len(),
{
    if walk.len() == 0 {
        Seq::empty()
    } else {
        let prev = present(walk.drop_last());
        match walk.last() {
            Some(c) => prev.push(c),
            None => prev,
        }
    }
}

/// The part of a walk of `max` entries at most.
pub open spec fn walk_window(walk: Seq<Option<RawCommit>>, max: usize) -> Seq<Option<RawCommit>> {
    if max as int <= walk.len() {
        walk.take(max as int)
    } else {
        walk
    }
}

/// `c` shows `raw`, with the labels that `refs` put on it; missing texts
/// are empty, a missing author name is `?`, and the date shows the commit's
/// time to the minute.
pub open spec fn commit_shows(c: Commit, raw: RawCommit, refs: Seq<RawRef>, head: HeadInfo) -> bool {
    &&& c.id@ == raw.id@
    &&& c.short_id@ == raw.id@.take(8)
    &&& c.summary@ == text_or(raw.summary, ""@)
    &&& c.body@ == text_or(raw.body, ""@)
    &&& c.author@ == text_or(raw.author_name, "?"@)
    &&& c.email@ == text_or(raw.author_email, ""@)
    &&& c.timestamp == raw.time
    &&& shows_time(c.date_str@, raw.time as int)
    &&& texts_view(c.parents@) == texts_view(raw.parents@)
    &&& labels_view(c.refs@) == labels_for(refs, head, raw.id@)
}

/// A copy of a list of strings.
pub fn copy_texts(v: &Vec<String>) -> (out: Vec<String>)
    ensures
        texts_view(out@) == texts_view(v@),
{
    let mut out: Vec<String> = Vec::new();
    let mut k: usize = 0;
    while k < v.len()
        invariant
            k <= v@.len(),
            texts_view(out@) == texts_view(v@.take(k as int)),
        decreases v@.len() - k,
    {
        let s = v[k].clone();
        let ghost prev = out@;
        out.push(s);
        assert(texts_view(out@) =~= texts_view(prev).push(s@));
        assert(texts_view(v@.take(k + 1)) =~= texts_view(v@.take(k as int)).push(v@[k as int]@));
        k = k + 1;
    }
    assert(v@.take(k as int) =~= v@);
    out
}

/// The name of a repository: the name of its directory, or the path it was
/// opened with when the directory has no name.
pub fn repo_display_name(dir_name: &Option<String>, path: &str) -> (name: String)
    ensures
        name@ == text_or(*dir_name, path@),
{
    text_or_default(dir_name, path)
}

/// The label of HEAD: its short name, or `HEAD`.
pub fn head_label(shorthand: &Option<String>) -> (label: String)
    ensures
        label@ == text_or(*shorthand, "HEAD"@),
{
    text_or_default(shorthand, "HEAD")
}

/// The commits of the first `max` entries of a revision walk, in walk
/// order, leaving out the entries whose commit could not be read, each with
/// the labels that the references put on it.
pub fn load_commits(walk: &Vec<Option<RawCommit>>, refs: &Vec<RawRef>, head: &HeadInfo, max: usize) -> (commits: Vec<Commit>)
    requires
        forall|k: int|
            0 <= k < walk_window(walk@, max).len() ==> (#[trigger] walk_window(walk@, max)[k] matches Some(
                r,
            ) ==> short_id_ok(r.id@)),
    ensures
        commits@.len() == present(walk_window(walk@, max)).len(),
        forall|j: int|
            0 <= j < commits@.len() ==> commit_shows(
                #[trigger] commits@[j],
                present(walk_window(walk@, max))[j],
                refs@,
                *head,
            ),
{
    let ref_map = build_ref_map(refs, head);
    let end = if max <= walk.len() { max } else { walk.len() };
    let ghost window = walk_window(walk@, max);
    assert(window == walk@.take(end as int));
    let mut commits: Vec<Commit> = Vec::new();
    let mut k: usize = 0;
    while k < end
        invariant
            end <= walk@.len(),
            window == walk@.take(end as int),
            k <= end,
            forall|q: int|
                0 <= q < window.len() ==> (#[trigger] window[q] matches Some(r) ==> short_id_ok(r.id@)),
            forall|oid: Seq<char>|
                #[trigger] ref_map@.contains_key(oid) <==> labels_for(refs@, *head, oid).len() > 0,
            forall|oid: Seq<char>|
                #[trigger] ref_map@.contains_key(oid) ==> labels_view(ref_map@[oid]@) == labels_for(
                    refs@,
                    *head,
                    oid,
                ),
            commits@.len() == present(walk@.take(k as int)).len(),
            forall|j: int|
                0 <= j < commits@.len() ==> commit_shows(
                    #[trigger] commits@[j],
                    present(walk@.take(k as int))[j],
                    refs@,
                    *head,
                ),
        decreases end - k,
    {
        assert(walk@.take(k + 1).drop_last() =~= walk@.take(k as int));
        assert(window[k as int] == walk@[k as int]);
        match &walk[k] {
            Some(raw) => {
                assert(short_id_ok(raw.id@));
                let c = show_commit(raw, &ref_map, refs, head);
                let ghost prev = commits@;
                commits.push(c);
                assert(present(walk@.take(k + 1)) == present(walk@.take(k as int)).push(*raw));
                assert forall|j: int| 0 <= j < commits@.len() implies commit_shows(
                    #[trigger] commits@[j],
                    present(walk@.take(k + 1))[j],
                    refs@,
                    *head,
                ) by {
                    if j < prev.len() {
                        assert(commits@[j] == prev[j]);
                    }
                }
            },
            None => {
                assert(present(walk@.take(k + 1)) == present(walk@.take(k as int)));
            },
        }
        k = k + 1;
    }
    commits
}

/// The commit that shows `raw`.
fn show_commit(
    raw: &RawCommit,
    ref_map: &vstd::hash_map::StringHashMap<Vec<crate::model::RefLabel>>,
    refs: &Vec<RawRef>,
    head: &HeadInfo,
) -> (c: Commit)
    requires
        short_id_ok(raw.id@),
        forall|oid: Seq<char>|
            #[trigger] ref_map@.contains_key(oid) <==> labels_for(refs@, *head, oid).len() > 0,
        forall|oid: Seq<char>|
            #[trigger] ref_map@.contains_key(oid) ==> labels_view(ref_map@[oid]@) == labels_for(
                refs@,
                *head,
                oid,
            ),
    ensures
        commit_shows(c, *raw, refs@, *head),
{
    let id = copy_text(raw.id.as_str());
    let short_id = prefix_chars(raw.id.as_str(), 8);
    let summary = text_or_default(&raw.summary, "");
    let body = text_or_default(&raw.body, "");
    let author = text_or_default(&raw.author_name, "?");
    let email = text_or_default(&raw.author_email, "");
    let date_str = format_timestamp(raw.time);
    let parents = copy_texts(&raw.parents);
    let labels = match ref_map.get(raw.id.as_str()) {
        Some(v) => copy_labels(v),
        None => Vec::new(),
    };
    proof {
        if !ref_map@.contains_key(raw.id@) {
            assert(labels_view(labels@) =~= labels_for(refs@, *head, raw.id@));
        }
    }
    Commit {
        id,
        short_id,
        summary,
        body,
        author,
        email,
        timestamp: raw.time,
        date_str,
        parents,
        refs: labels,
    }
}

} // verus!
