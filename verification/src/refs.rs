//! References: which commits carry which branch, tag and remote labels, and
//! the list of branches for the sidebar.

use vstd::prelude::*;
use vstd::hash_map::StringHashMap;
use crate::model::{RefKind, RefLabel, RefLabelView, labels_view};
use crate::text::{is_prefix_of, same_text, starts_with, copy_text, chars_of, string_of, texts_view};

verus! {

/// A reference as the repository reports it.
pub struct RawRef {
    /// The full name, such as `refs/heads/main`, when it is valid UTF-8.
    pub name: Option<String>,
    /// The short name, such as `main`, when there is one.
    pub shorthand: Option<String>,
    /// The commit the reference resolves to, when it resolves.
    pub target: Option<String>,
    pub is_branch: bool,
    pub is_remote: bool,
}

/// What the repository reports of HEAD.
pub struct HeadInfo {
    /// The short name of HEAD, such as the current branch.
    pub shorthand: Option<String>,
    /// The commit HEAD resolves to.
    pub target: Option<String>,
}

/// The text of an optional string.
pub open spec fn opt_text(o: Option<String>) -> Option<Seq<char>> {
    match o {
        Some(s) => Some(s@),
        None => None,
    }
}

/// The text of an optional string, or `d` when there is none.
pub open spec fn text_or(o: Option<String>, d: Seq<char>) -> Seq<char> {
    match o {
        Some(s) => s@,
        None => d,
    }
}

/// The full name of a reference, empty when it has none.
pub open spec fn full_name(r: RawRef) -> Seq<char> {
    text_or(r.name, ""@)
}

/// The short name of a reference, `?` when it has none.
pub open spec fn short_name(r: RawRef) -> Seq<char> {
    text_or(r.shorthand, "?"@)
}

/// The kind of a reference: a tag or a remote branch by its full name, the
/// HEAD branch when it points where HEAD points and has HEAD's short name,
/// and a branch otherwise.
pub open spec fn spec_ref_kind(r: RawRef, head: HeadInfo) -> RefKind {
    if is_prefix_of("refs/tags/"@, full_name(r)) {
        RefKind::Tag
    } else if is_prefix_of("refs/remotes/"@, full_name(r)) {
        RefKind::Remote
    } else if opt_text(head.target) == opt_text(r.target) && opt_text(head.shorthand) == Some(
        short_name(r),
    ) {
        RefKind::Head
    } else {
        RefKind::Branch
    }
}

/// The label a reference puts on the commit it points at.
pub open spec fn spec_label(r: RawRef, head: HeadInfo) -> RefLabelView {
    RefLabelView { name: short_name(r), kind: spec_ref_kind(r, head) }
}

/// The labels, in reference order, that the first `k` references put on
/// commit `oid`.
pub open spec fn labels_upto(refs: Seq<RawRef>, head: HeadInfo, oid: Seq<char>, k: int) -> Seq<
    RefLabelView,
>
    decreases k,
{
    if k <= 0 {
        Seq::empty()
    } else {
        let prev = labels_upto(refs, head, oid, k - 1);
        if opt_text(refs[k - 1].target) == Some(oid) {
            prev.push(spec_label(refs[k - 1], head))
        } else {
            prev
        }
    }
}

/// The labels, in reference order, that the references put on commit `oid`.
pub open spec fn labels_for(refs: Seq<RawRef>, head: HeadInfo, oid: Seq<char>) -> Seq<RefLabelView> {
    labels_upto(refs, head, oid, refs.len() as int)
}

/// Whether two optional strings are both absent or hold the same text.
fn same_opt_text(a: &Option<String>, b: &Option<String>) -> (eq: bool)
    ensures
        eq == (opt_text(*a) == opt_text(*b)),
{
    match (a, b) {
        (Some(x), Some(y)) => same_text(x.as_str(), y.as_str()),
        (None, None) => true,
        _ => false,
    }
}

/// The text of an optional string, or `default` when there is none.
pub(crate) fn text_or_default(o: &Option<String>, default: &str) -> (t: String)
    ensures
        t@ == text_or(*o, default@),
{
    match o {
        Some(s) => copy_text(s.as_str()),
        None => copy_text(default),
    }
}

/// The kind of a reference.
pub fn classify_ref(r: &RawRef, head: &HeadInfo) -> (kind: RefKind)
    ensures
        kind == spec_ref_kind(*r, *head),
{
    let full = text_or_default(&r.name, "");
    let short = text_or_default(&r.shorthand, "?");
    if starts_with(full.as_str(), "refs/tags/") {
        RefKind::Tag
    } else if starts_with(full.as_str(), "refs/remotes/") {
        RefKind::Remote
    } else if same_opt_text(&head.target, &r.target) && match &head.shorthand {
        Some(h) => same_text(h.as_str(), short.as_str()),
        None => false,
    } {
        RefKind::Head
    } else {
        RefKind::Branch
    }
}

/// A copy of a list of labels.
pub fn copy_labels(v: &Vec<RefLabel>) -> (out: Vec<RefLabel>)
    ensures
        labels_view(out@) == labels_view(v@),
{
    let mut out: Vec<RefLabel> = Vec::new();
    let mut k: usize = 0;
    while k < v.len()
        invariant
            k <= v@.len(),
            labels_view(out@) == labels_view(v@.take(k as int)),
        decreases v@.len() - k,
    {
        let l = RefLabel { name: v[k].name.clone(), kind: v[k].kind };
        assert(l@ == v@[k as int]@);
        let ghost prev = out@;
        out.push(l);
        assert(labels_view(out@) =~= labels_view(prev).push(l@));
        assert(labels_view(v@.take(k + 1)) =~= labels_view(v@.take(k as int)).push(v@[k as int]@));
        k = k + 1;
    }
    assert(v@.take(k as int) =~= v@);
    out
}

/// The labels of each commit that references point at, keyed by commit id.
pub fn build_ref_map(refs: &Vec<RawRef>, head: &HeadInfo) -> (map: StringHashMap<Vec<RefLabel>>)
    ensures
        forall|oid: Seq<char>|
            #[trigger] map@.contains_key(oid) <==> labels_for(refs@, *head, oid).len() > 0,
        forall|oid: Seq<char>|
            #[trigger] map@.contains_key(oid) ==> labels_view(map@[oid]@) == labels_for(
                refs@,
                *head,
                oid,
            ),
{
    let mut map: StringHashMap<Vec<RefLabel>> = StringHashMap::new();
    let mut k: usize = 0;
    while k < refs.len()
        invariant
            k <= refs@.len(),
            forall|oid: Seq<char>|
                #[trigger] map@.contains_key(oid) <==> labels_upto(refs@, *head, oid, k as int).len()
                    > 0,
            forall|oid: Seq<char>|
                #[trigger] map@.contains_key(oid) ==> labels_view(map@[oid]@) == labels_upto(
                    refs@,
                    *head,
                    oid,
                    k as int,
                ),
        decreases refs@.len() - k,
    {
        let r = &refs[k];
        let kind = classify_ref(r, head);
        let name = text_or_default(&r.shorthand, "?");
        match &r.target {
            Some(oid) => {
                let mut labels = match map.get(oid.as_str()) {
                    Some(v) => copy_labels(v),
                    None => Vec::new(),
                };
                let ghost before = labels_upto(refs@, *head, oid@, k as int);
                assert(labels_view(labels@) == before) by {
                    if !map@.contains_key(oid@) {
                        assert(labels_view(labels@) =~= Seq::<RefLabelView>::empty());
                    }
                }
                labels.push(RefLabel { name, kind });
                assert(labels_view(labels@) =~= before.push(spec_label(refs@[k as int], *head)));
                map.insert(oid.clone(), labels);
                assert forall|s: Seq<char>| s != oid@ implies labels_upto(refs@, *head, s, k + 1)
                    == labels_upto(refs@, *head, s, k as int) by {}
            },
            None => {
                assert forall|s: Seq<char>|
                    labels_upto(refs@, *head, s, k + 1) == labels_upto(refs@, *head, s, k as int) by {}
            },
        }
        k = k + 1;
    }
    map
}

// ── The branch list ───────────────────────────────────────────────────

/// `a` sorts before `b` in the order of `String`: the UTF-8 bytes compared
/// from the left, which orders the characters by code point.
pub open spec fn text_lt(a: Seq<char>, b: Seq<char>) -> bool
    decreases a.len(),
{
    if a.len() == 0 {
        b.len() > 0
    } else if b.len() == 0 {
        false
    } else if a[0] != b[0] {
        (a[0] as u32) < (b[0] as u32)
    } else {
        text_lt(a.drop_first(), b.drop_first())
    }
}

/// The order of texts is transitive.
pub proof fn text_lt_transitive(a: Seq<char>, b: Seq<char>, c: Seq<char>)
    requires
        text_lt(a, b),
        text_lt(b, c),
    ensures
        text_lt(a, c),
    decreases a.len(),
{
    if a.len() > 0 && b.len() > 0 && c.len() > 0 && a[0] == b[0] && b[0] == c[0] {
        text_lt_transitive(a.drop_first(), b.drop_first(), c.drop_first());
    }
}

/// Of two different texts, one sorts before the other.
pub proof fn text_lt_total(a: Seq<char>, b: Seq<char>)
    requires
        a != b,
    ensures
        text_lt(a, b) || text_lt(b, a),
    decreases a.len(),
{
    if a.len() > 0 && b.len() > 0 && a[0] == b[0] {
        if a.drop_first() == b.drop_first() {
            assert(a =~= seq![a[0]] + a.drop_first());
            assert(b =~= seq![b[0]] + b.drop_first());
        }
        text_lt_total(a.drop_first(), b.drop_first());
    } else if a.len() == 0 && b.len() == 0 {
        assert(a =~= b);
    } else if a.len() > 0 && b.len() > 0 {
        vstd::utf8::char_u32_cast(a[0], a[0] as u32);
        vstd::utf8::char_u32_cast(b[0], b[0] as u32);
    }
}

/// No text sorts before itself.
pub proof fn text_lt_irreflexive(a: Seq<char>)
    ensures
        !text_lt(a, a),
    decreases a.len(),
{
    if a.len() > 0 {
        text_lt_irreflexive(a.drop_first());
    }
}

/// Whether `a` sorts before `b`.
fn text_less(a: &Vec<char>, b: &Vec<char>) -> (lt: bool)
    ensures
        lt == text_lt(a@, b@),
{
    let mut i: usize = 0;
    assert(a@.skip(0) =~= a@);
    assert(b@.skip(0) =~= b@);
    while i < a.len() && i < b.len() && a[i] == b[i]
        invariant
            i <= a@.len(),
            i <= b@.len(),
            text_lt(a@, b@) == text_lt(a@.skip(i as int), b@.skip(i as int)),
        decreases a@.len() - i,
    {
        assert(a@.skip(i + 1) =~= a@.skip(i as int).drop_first());
        assert(b@.skip(i + 1) =~= b@.skip(i as int).drop_first());
        i = i + 1;
    }
    if i == a.len() {
        i < b.len()
    } else if i == b.len() {
        false
    } else {
        (a[i] as u32) < (b[i] as u32)
    }
}

/// Reference `r` names the branch or remote branch `t`.
pub open spec fn names_branch(r: RawRef, t: Seq<char>) -> bool {
    (r.is_branch || r.is_remote) && opt_text(r.shorthand) == Some(t)
}

/// The texts are in strictly increasing order.
pub open spec fn strictly_sorted(s: Seq<Seq<char>>) -> bool {
    forall|i: int, j: int| 0 <= i < j < s.len() ==> text_lt(s[i], s[j])
}

/// The texts of a list of character vectors.
pub open spec fn char_lists_view(v: Seq<Vec<char>>) -> Seq<Seq<char>> {
    v.map_values(|c: Vec<char>| c@)
}

/// Adds `x` to a strictly sorted list, unless it holds it already.
fn insert_sorted(sorted: &mut Vec<Vec<char>>, x: Vec<char>)
    requires
        strictly_sorted(char_lists_view(old(sorted)@)),
    ensures
        strictly_sorted(char_lists_view(final(sorted)@)),
        forall|t: Seq<char>|
            char_lists_view(final(sorted)@).contains(t) <==> (char_lists_view(old(sorted)@).contains(t)
                || t == x@),
{
    let ghost old_view = char_lists_view(sorted@);
    let mut pos: usize = 0;
    while pos < sorted.len() && text_less(&sorted[pos], &x)
        invariant
            pos <= sorted@.len(),
            char_lists_view(sorted@) == old_view,
            forall|q: int| 0 <= q < pos ==> text_lt(old_view[q], x@),
        decreases sorted@.len() - pos,
    {
        pos = pos + 1;
    }
    if pos < sorted.len() && !text_less(&x, &sorted[pos]) {
        proof {
            if old_view[pos as int] != x@ {
                text_lt_total(old_view[pos as int], x@);
            }
            assert(old_view.contains(x@));
        }
        return;
    }
    proof {
        if pos < old_view.len() {
            if old_view[pos as int] != x@ {
                text_lt_total(old_view[pos as int], x@);
            } else {
                text_lt_irreflexive(x@);
            }
        }
    }
    let ghost xv = x@;
    sorted.insert(pos, x);
    let ghost new_view = char_lists_view(sorted@);
    assert(new_view =~= old_view.insert(pos as int, xv));
    assert forall|i: int, j: int| 0 <= i < j < new_view.len() implies text_lt(new_view[i], new_view[j]) by {
        if j < pos {
        } else if j == pos {
        } else if i < pos {
            assert(text_lt(old_view[i], xv));
            assert(text_lt(xv, old_view[pos as int]));
            if j - 1 > pos {
                text_lt_transitive(xv, old_view[pos as int], old_view[j - 1]);
            }
            text_lt_transitive(old_view[i], xv, old_view[j - 1]);
        } else if i == pos {
            if j - 1 > pos {
                text_lt_transitive(xv, old_view[pos as int], old_view[j - 1]);
            }
        } else {
        }
    }
    assert forall|t: Seq<char>| new_view.contains(t) <==> (old_view.contains(t) || t == xv) by {
        if new_view.contains(t) {
            let q = choose|q: int| 0 <= q < new_view.len() && new_view[q] == t;
            if q < pos {
                assert(old_view[q] == t);
            } else if q > pos {
                assert(old_view[q - 1] == t);
            }
        }
        if old_view.contains(t) {
            let q = choose|q: int| 0 <= q < old_view.len() && old_view[q] == t;
            if q < pos {
                assert(new_view[q] == t);
            } else {
                assert(new_view[q + 1] == t);
            }
        }
        if t == xv {
            assert(new_view[pos as int] == t);
        }
    }
}

/// The branch list of the sidebar: `(all)` first, then the short names of
/// the branches and remote branches, sorted, each once.
pub fn all_branches(refs: &Vec<RawRef>) -> (out: Vec<String>)
    ensures
        out@.len() >= 1,
        out@[0]@ == "(all)"@,
        strictly_sorted(texts_view(out@).drop_first()),
        forall|t: Seq<char>|
            texts_view(out@).drop_first().contains(t) <==> exists|j: int|
                0 <= j < refs@.len() && names_branch(#[trigger] refs@[j], t),
{
    let mut sorted: Vec<Vec<char>> = Vec::new();
    let mut k: usize = 0;
    while k < refs.len()
        invariant
            k <= refs@.len(),
            strictly_sorted(char_lists_view(sorted@)),
            forall|t: Seq<char>|
                char_lists_view(sorted@).contains(t) <==> exists|j: int|
                    0 <= j < k && names_branch(#[trigger] refs@[j], t),
        decreases refs@.len() - k,
    {
        let r = &refs[k];
        let ghost before = char_lists_view(sorted@);
        match &r.shorthand {
            Some(name) => {
                if r.is_branch || r.is_remote {
                    let x = chars_of(name.as_str());
                    insert_sorted(&mut sorted, x);
                }
            },
            None => {},
        }
        assert forall|t: Seq<char>|
            char_lists_view(sorted@).contains(t) <==> exists|j: int|
                0 <= j < k + 1 && names_branch(#[trigger] refs@[j], t) by {
            if names_branch(refs@[k as int], t) {
                assert(char_lists_view(sorted@).contains(t));
            }
            if exists|j: int| 0 <= j < k + 1 && names_branch(#[trigger] refs@[j], t) {
                let j = choose|j: int| 0 <= j < k + 1 && names_branch(#[trigger] refs@[j], t);
                if j < k {
                    assert(before.contains(t));
                }
            }
        }
        k = k + 1;
    }
    let mut out: Vec<String> = Vec::new();
    out.push(copy_text("(all)"));
    let mut m: usize = 0;
    while m < sorted.len()
        invariant
            m <= sorted@.len(),
            out@.len() == m + 1,
            out@[0]@ == "(all)"@,
            texts_view(out@).drop_first() == char_lists_view(sorted@).take(m as int),
        decreases sorted@.len() - m,
    {
        let s = string_of(sorted[m].as_slice());
        let ghost prev = out@;
        out.push(s);
        assert(texts_view(out@).drop_first() =~= texts_view(prev).drop_first().push(s@));
        assert(char_lists_view(sorted@).take(m + 1) =~= char_lists_view(sorted@).take(m as int).push(sorted@[m as int]@));
        m = m + 1;
    }
    assert(char_lists_view(sorted@).take(m as int) =~= char_lists_view(sorted@));
    out
}

} // verus!
