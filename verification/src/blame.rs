//! The blame view: each line of a file with the commit that last changed it.

use vstd::prelude::*;
use crate::model::BlameLine;
use crate::refs::{text_or, text_or_default};
use crate::text::{split_lines, text_lines, texts_view, prefix_chars, copy_text, text_from_utf8};
use vstd::utf8::{valid_utf8, decode_utf8};
use crate::clock::{format_timestamp, shows_time};

verus! {

/// The blame of one line, as the repository reports it.
pub struct RawHunk {
    /// The id of the commit that last changed the line.
    pub commit_id: String,
    /// The name of that commit's author, when it is valid UTF-8.
    pub author: Option<String>,
    /// The time of that commit, in seconds after the epoch.
    pub time: i64,
}

/// An id whose short form, its first eight characters or all of it when it
/// is shorter, is ASCII.
pub open spec fn short_prefix_ok(id: Seq<char>) -> bool {
    forall|k: int| 0 <= k < 8 && k < id.len() ==> (id[k] as u32) < 128
}

/// The short form of an id: its first eight characters, or all of it.
pub open spec fn short_form(id: Seq<char>) -> Seq<char> {
    if 8 <= id.len() {
        id.take(8)
    } else {
        id
    }
}

/// The blame of line `k` (from 0), when there is one.
pub open spec fn hunk_at(hunks: Seq<Option<RawHunk>>, k: int) -> Option<RawHunk> {
    if 0 <= k < hunks.len() {
        hunks[k]
    } else {
        None
    }
}

/// Blame line `b` shows line `k` (from 0) of a file, with text `text`,
/// last changed in hunk `h`, and the hunk's time to the minute.
pub open spec fn blame_shows(b: BlameLine, k: int, text: Seq<char>, h: RawHunk) -> bool {
    &&& b.commit_id@ == h.commit_id@
    &&& b.short_id@ == short_form(h.commit_id@)
    &&& b.author@ == text_or(h.author, "?"@)
    &&& b.lineno == k + 1
    &&& shows_time(b.date@, h.time as int)
    &&& b.content@ == text
}

/// The lines below `m` that have a blame: their index and text, with their
/// hunk.
pub open spec fn blamed(lines: Seq<Seq<char>>, hunks: Seq<Option<RawHunk>>, m: int) -> Seq<
    (int, Seq<char>, RawHunk),
>
    decreases m,
{
    if m <= 0 {
        Seq::empty()
    } else {
        let prev = blamed(lines, hunks, m - 1);
        match hunk_at(hunks, m - 1) {
            Some(h) => prev.push((m - 1, lines[m - 1], h)),
            None => prev,
        }
    }
}

/// The blame view of a file with text `content`: its lines in order, each
/// with the hunk that `hunks` gives for it, leaving out lines without one.
pub fn blame_lines(content: &str, hunks: &Vec<Option<RawHunk>>) -> (result: Vec<BlameLine>)
    requires
        forall|k: int|
            0 <= k < hunks@.len() ==> (#[trigger] hunks@[k] matches Some(h) ==> short_prefix_ok(
                h.commit_id@,
            )),
    ensures
        ({
            let lines = text_lines(content@);
            let shown = blamed(lines, hunks@, lines.len() as int);
            &&& result@.len() == shown.len()
            &&& forall|j: int|
                0 <= j < result@.len() ==> blame_shows(
                    #[trigger] result@[j],
                    shown[j].0,
                    shown[j].1,
                    shown[j].2,
                )
        }),
{
    let lines = split_lines(content);
    let ghost lv = text_lines(content@);
    assert(texts_view(lines@).len() == lines@.len());
    let mut result: Vec<BlameLine> = Vec::new();
    let mut k: usize = 0;
    while k < lines.len()
        invariant
            k <= lines@.len(),
            texts_view(lines@) == lv,
            lv.len() == lines@.len(),
            forall|q: int|
                0 <= q < hunks@.len() ==> (#[trigger] hunks@[q] matches Some(h) ==> short_prefix_ok(
                    h.commit_id@,
                )),
            result@.len() == blamed(lv, hunks@, k as int).len(),
            forall|j: int|
                0 <= j < result@.len() ==> blame_shows(
                    #[trigger] result@[j],
                    blamed(lv, hunks@, k as int)[j].0,
                    blamed(lv, hunks@, k as int)[j].1,
                    blamed(lv, hunks@, k as int)[j].2,
                ),
        decreases lines@.len() - k,
    {
        let hunk = if k < hunks.len() {
            &hunks[k]
        } else {
            &None
        };
        assert(*hunk == hunk_at(hunks@, k as int));
        match hunk {
            Some(h) => {
                let commit_id = copy_text(h.commit_id.as_str());
                let short_id = prefix_chars(h.commit_id.as_str(), 8);
                let author = text_or_default(&h.author, "?");
                let date = format_timestamp(h.time);
                let content = lines[k].clone();
                assert(content@ == lv[k as int]);
                let b = BlameLine { commit_id, short_id, author, date, lineno: k + 1, content };
                let ghost prev = result@;
                result.push(b);
                assert forall|j: int| 0 <= j < result@.len() implies blame_shows(
                    #[trigger] result@[j],
                    blamed(lv, hunks@, k + 1)[j].0,
                    blamed(lv, hunks@, k + 1)[j].1,
                    blamed(lv, hunks@, k + 1)[j].2,
                ) by {
                    if j < prev.len() {
                        assert(result@[j] == prev[j]);
                    }
                }
            },
            None => {},
        }
        k = k + 1;
    }
    result
}

/// The number of lines of a text: the lines for which a blame is asked.
pub fn line_count(content: &str) -> (n: usize)
    ensures
        n == text_lines(content@).len(),
{
    let lines = split_lines(content);
    assert(texts_view(lines@).len() == lines@.len());
    lines.len()
}

/// The text of a file's content, when it is valid UTF-8; a file that is not
/// has no text to blame.
pub fn file_text(bytes: &[u8]) -> (r: Option<String>)
    ensures
        r is Some <==> valid_utf8(bytes@),
        r matches Some(t) ==> t@ == decode_utf8(bytes@),
{
    text_from_utf8(bytes)
}

} // verus!
