//! Lane layout of the commit graph, in the manner of gitk.
//!
//! Rows are laid out top to bottom in the order of the commit list.  Each
//! commit gets a lane; its first parent inherits that lane and colour.  A
//! further parent without a lane is given the lowest free lane and a fresh
//! colour; that lane is marked in use only when the parent's own row is
//! placed, so the further parents of one merge may share it.  Every row
//! carries the edges that pass through it.

use vstd::prelude::*;
use vstd::hash_map::StringHashMap;
use crate::model::{Commit, ids_of};
use crate::text::texts_view;

verus! {

/// A line segment drawn below a row, from a lane of this row to a lane of
/// the next.
#[derive(Clone, Copy, Debug, PartialEq, Eq)]
pub struct Edge {
    pub from_lane: usize,
    pub to_lane: usize,
    pub color_idx: usize,
}

/// The layout of one row: which commit, on which lane, in which colour, and
/// the edges that leave the row.
#[derive(Clone, Debug)]
pub struct GraphNode {
    pub commit_idx: usize,
    pub lane: usize,
    pub color_idx: usize,
    pub edges: Vec<Edge>,
}

/// The layout of the whole commit list.
pub struct GraphLayout {
    pub nodes: Vec<GraphNode>,
    pub max_lanes: usize,
}

/// A row of the layout as a mathematical value.
pub struct NodeView {
    pub commit_idx: usize,
    pub lane: usize,
    pub color_idx: usize,
    pub edges: Seq<Edge>,
}

/// The layout as a mathematical value.
pub struct LayoutView {
    pub nodes: Seq<NodeView>,
    pub max_lanes: usize,
}

impl View for GraphNode {
    type V = NodeView;

    open spec fn view(&self) -> NodeView {
        NodeView {
            commit_idx: self.commit_idx,
            lane: self.lane,
            color_idx: self.color_idx,
            edges: self.edges@,
        }
    }
}

impl View for GraphLayout {
    type V = LayoutView;

    open spec fn view(&self) -> LayoutView {
        LayoutView { nodes: self.nodes@.map_values(|n: GraphNode| n@), max_lanes: self.max_lanes }
    }
}

// ── The layout as a mathematical function ─────────────────────────────

/// The last index below `k` whose identifier is `s`: the index that a map
/// filled with the identifiers in list order keeps for `s`.
pub open spec fn last_index_of(ids: Seq<Seq<char>>, s: Seq<char>, k: int) -> Option<usize>
    decreases k,
{
    if k <= 0 {
        None
    } else if ids[k - 1] == s {
        Some((k - 1) as usize)
    } else {
        last_index_of(ids, s, k - 1)
    }
}

/// The list indices of the first `m` parents of commit `i`, leaving out the
/// parents that are not in the list.
pub open spec fn resolve_prefix(commits: Seq<Commit>, i: int, m: int) -> Seq<usize>
    decreases m,
{
    if m <= 0 {
        Seq::empty()
    } else {
        let prev = resolve_prefix(commits, i, m - 1);
        match last_index_of(ids_of(commits), commits[i].parents@[m - 1]@, commits.len() as int) {
            Some(j) => prev.push(j),
            None => prev,
        }
    }
}

/// The list indices of the parents of commit `i` that are in the list, in
/// parent order.
pub open spec fn resolved_parents(commits: Seq<Commit>, i: int) -> Seq<usize> {
    resolve_prefix(commits, i, commits[i].parents@.len() as int)
}

/// The lane bookkeeping of the layout between rows.
pub struct Lanes {
    /// The lane given to each commit, once it has one.
    pub lane_of: Seq<Option<usize>>,
    /// The colour given to each commit together with its lane.
    pub color_of: Seq<usize>,
    /// For each lane, the commit that last occupied it, if it is in use.
    pub active: Seq<Option<usize>>,
    pub next_color: usize,
    pub max_lanes: usize,
}

/// The lowest lane at or above `j` that is free, or the number of lanes.
pub open spec fn free_lane_from(active: Seq<Option<usize>>, j: int) -> usize
    decreases active.len() - j,
{
    if j >= active.len() {
        active.len() as usize
    } else if active[j] is None {
        j as usize
    } else {
        free_lane_from(active, j + 1)
    }
}

/// The lowest free lane, or the number of lanes when all are in use.
pub open spec fn spec_free_lane(active: Seq<Option<usize>>) -> usize {
    free_lane_from(active, 0)
}

/// The lanes, extended with free lanes so that `lane` exists.
pub open spec fn spec_grow(active: Seq<Option<usize>>, lane: usize) -> Seq<Option<usize>> {
    if lane < active.len() {
        active
    } else {
        active + Seq::new((lane + 1 - active.len()) as nat, |_k: int| None::<usize>)
    }
}

/// The number of lanes in use.
pub open spec fn count_some(s: Seq<Option<usize>>) -> nat
    decreases s.len(),
{
    if s.len() == 0 {
        0
    } else {
        count_some(s.drop_last()) + if s.last() is Some { 1nat } else { 0nat }
    }
}

/// Commit `j` gets the lowest free lane and the next colour.
pub open spec fn alloc_lane(s: Lanes, j: int) -> Lanes {
    let lane = spec_free_lane(s.active);
    Lanes {
        lane_of: s.lane_of.update(j, Some(lane)),
        color_of: s.color_of.update(j, s.next_color),
        active: spec_grow(s.active, lane),
        next_color: (s.next_color + 1) as usize,
        max_lanes: s.max_lanes,
    }
}

/// Row `i` takes its lane (a new one unless it inherited one), occupies it,
/// and the widest row so far is recorded.
pub open spec fn place_row(s: Lanes, i: int) -> Lanes {
    let s1 = if s.lane_of[i] is None { alloc_lane(s, i) } else { s };
    let lane = s1.lane_of[i]->0;
    let active = s1.active.update(lane as int, Some(i as usize));
    let width = count_some(active);
    Lanes {
        lane_of: s1.lane_of,
        color_of: s1.color_of,
        active: active,
        next_color: s1.next_color,
        max_lanes: if s1.max_lanes >= width { s1.max_lanes } else { width as usize },
    }
}

/// The first parent of row `i` inherits its lane and colour, unless it has
/// a lane already.
pub open spec fn inherit_first(s: Lanes, i: int, parents: Seq<usize>) -> Lanes {
    if parents.len() > 0 && s.lane_of[parents[0] as int] is None {
        Lanes {
            lane_of: s.lane_of.update(parents[0] as int, s.lane_of[i]),
            color_of: s.color_of.update(parents[0] as int, s.color_of[i]),
            active: s.active,
            next_color: s.next_color,
            max_lanes: s.max_lanes,
        }
    } else {
        s
    }
}

/// A further parent without a lane is given the lowest free lane and the
/// next colour.  The lane is not marked in use here, so further parents of
/// one row may be given the same lane.
pub open spec fn extra_parent(s: Lanes, p: usize) -> Lanes {
    if s.lane_of[p as int] is None {
        alloc_lane(s, p as int)
    } else {
        s
    }
}

/// The parents from the second up to (not including) the `k`-th, handled
/// in order.
pub open spec fn extra_parents(s: Lanes, parents: Seq<usize>, k: int) -> Lanes
    decreases k,
{
    if k <= 1 {
        s
    } else {
        extra_parent(extra_parents(s, parents, k - 1), parents[k - 1])
    }
}

/// The vertical edges of the lanes below `k` that are in use by a commit
/// other than row `i`.
pub open spec fn carry_edges(
    active: Seq<Option<usize>>,
    color_of: Seq<usize>,
    i: usize,
    k: int,
) -> Seq<Edge>
    decreases k,
{
    if k <= 0 {
        Seq::empty()
    } else {
        let prev = carry_edges(active, color_of, i, k - 1);
        match active[k - 1] {
            Some(ci) => if ci != i {
                prev.push(
                    Edge {
                        from_lane: (k - 1) as usize,
                        to_lane: (k - 1) as usize,
                        color_idx: color_of[ci as int],
                    },
                )
            } else {
                prev
            },
            None => prev,
        }
    }
}

/// The edges from row lane `my_lane` to the lanes of the parents from the
/// second up to (not including) the `k`-th.
pub open spec fn merge_edges(
    lane_of: Seq<Option<usize>>,
    color_of: Seq<usize>,
    my_lane: usize,
    parents: Seq<usize>,
    k: int,
) -> Seq<Edge>
    decreases k,
{
    if k <= 1 {
        Seq::empty()
    } else {
        merge_edges(lane_of, color_of, my_lane, parents, k - 1).push(
            Edge {
                from_lane: my_lane,
                to_lane: lane_of[parents[k - 1] as int]->0,
                color_idx: color_of[parents[k - 1] as int],
            },
        )
    }
}

/// The lane bookkeeping and the rows laid out so far.
pub struct LayoutRun {
    pub lanes: Lanes,
    pub nodes: Seq<NodeView>,
}

/// The bookkeeping before the first row.
pub open spec fn initial_lanes(n: nat) -> Lanes {
    Lanes {
        lane_of: Seq::new(n, |_k: int| None::<usize>),
        color_of: Seq::new(n, |_k: int| 0usize),
        active: Seq::empty(),
        next_color: 0,
        max_lanes: 0,
    }
}

/// The bookkeeping after the parent handling of row `i`.
pub open spec fn row_lanes(s: Lanes, commits: Seq<Commit>, i: int) -> Lanes {
    let ps = resolved_parents(commits, i);
    extra_parents(inherit_first(place_row(s, i), i, ps), ps, ps.len() as int)
}

/// The edges that leave row `i`.
pub open spec fn row_edges(s: Lanes, commits: Seq<Commit>, i: int) -> Seq<Edge> {
    let ps = resolved_parents(commits, i);
    let my_lane = place_row(s, i).lane_of[i]->0;
    let s3 = row_lanes(s, commits, i);
    carry_edges(s3.active, s3.color_of, i as usize, s3.active.len() as int) + merge_edges(
        s3.lane_of,
        s3.color_of,
        my_lane,
        ps,
        ps.len() as int,
    )
}

/// The bookkeeping after row `i`: a row without parents in the list frees
/// its lane.
pub open spec fn after_row(s: Lanes, commits: Seq<Commit>, i: int) -> Lanes {
    let ps = resolved_parents(commits, i);
    let my_lane = place_row(s, i).lane_of[i]->0;
    let s3 = row_lanes(s, commits, i);
    if ps.len() == 0 {
        Lanes {
            lane_of: s3.lane_of,
            color_of: s3.color_of,
            active: s3.active.update(my_lane as int, None),
            next_color: s3.next_color,
            max_lanes: s3.max_lanes,
        }
    } else {
        s3
    }
}

/// The node of row `i`.
pub open spec fn row_node(s: Lanes, commits: Seq<Commit>, i: int) -> NodeView {
    let s1 = place_row(s, i);
    NodeView {
        commit_idx: i as usize,
        lane: s1.lane_of[i]->0,
        color_idx: s1.color_of[i],
        edges: row_edges(s, commits, i),
    }
}

/// The layout of the first `k` rows.
pub open spec fn layout_run(commits: Seq<Commit>, k: int) -> LayoutRun
    decreases k,
{
    if k <= 0 {
        LayoutRun { lanes: initial_lanes(commits.len()), nodes: Seq::empty() }
    } else {
        let prev = layout_run(commits, k - 1);
        LayoutRun {
            lanes: after_row(prev.lanes, commits, k - 1),
            nodes: prev.nodes.push(row_node(prev.lanes, commits, k - 1)),
        }
    }
}

/// The layout of a commit list.
pub open spec fn spec_layout(commits: Seq<Commit>) -> LayoutView {
    let run = layout_run(commits, commits.len() as int);
    LayoutView {
        nodes: run.nodes,
        max_lanes: if run.lanes.max_lanes >= 1 { run.lanes.max_lanes } else { 1 },
    }
}

// ── Well-formedness of the bookkeeping ────────────────────────────────

/// The bookkeeping for a list of `n` commits is consistent.
pub open spec fn lanes_valid(s: Lanes, n: nat) -> bool {
    &&& n <= usize::MAX
    &&& s.lane_of.len() == n
    &&& s.color_of.len() == n
    &&& forall|j: int| 0 <= j < n && #[trigger] s.lane_of[j] is Some ==> s.lane_of[j]->0 < s.active.len()
    &&& forall|q: int| 0 <= q < s.active.len() && #[trigger] s.active[q] is Some ==> s.active[q]->0 < n
    &&& s.active.len() <= s.next_color
    &&& s.next_color <= count_some(s.lane_of)
    &&& s.max_lanes <= s.active.len()
}

proof fn lemma_count_some_le(s: Seq<Option<usize>>)
    ensures
        count_some(s) <= s.len(),
    decreases s.len(),
{
    if s.len() > 0 {
        lemma_count_some_le(s.drop_last());
    }
}

proof fn lemma_count_some_lt(s: Seq<Option<usize>>, j: int)
    requires
        0 <= j < s.len(),
        s[j] is None,
    ensures
        count_some(s) < s.len(),
    decreases s.len(),
{
    if j < s.len() - 1 {
        lemma_count_some_lt(s.drop_last(), j);
    } else {
        lemma_count_some_le(s.drop_last());
    }
}

proof fn lemma_count_some_update(s: Seq<Option<usize>>, j: int, v: Option<usize>)
    requires
        0 <= j < s.len(),
    ensures
        count_some(s.update(j, v)) + (if s[j] is Some { 1nat } else { 0nat }) == count_some(s) + (
        if v is Some { 1nat } else { 0nat }),
    decreases s.len(),
{
    let t = s.update(j, v);
    if j < s.len() - 1 {
        assert(t.drop_last() =~= s.drop_last().update(j, v));
        lemma_count_some_update(s.drop_last(), j, v);
    } else {
        assert(t.drop_last() =~= s.drop_last());
    }
}

proof fn lemma_count_some_append_none(s: Seq<Option<usize>>, m: nat)
    ensures
        count_some(s + Seq::new(m, |_k: int| None::<usize>)) == count_some(s),
    decreases m,
{
    if m > 0 {
        let t = s + Seq::new(m, |_k: int| None::<usize>);
        assert(t.drop_last() =~= s + Seq::new((m - 1) as nat, |_k: int| None::<usize>));
        lemma_count_some_append_none(s, (m - 1) as nat);
    } else {
        assert(s + Seq::new(m, |_k: int| None::<usize>) =~= s);
    }
}

proof fn lemma_free_lane_from(active: Seq<Option<usize>>, j: int)
    requires
        0 <= j <= active.len(),
        active.len() <= usize::MAX,
    ensures
        j <= free_lane_from(active, j) <= active.len(),
        free_lane_from(active, j) < active.len() ==> active[free_lane_from(active, j) as int] is None,
        forall|q: int| j <= q < free_lane_from(active, j) ==> active[q] is Some,
    decreases active.len() - j,
{
    if j < active.len() && active[j] is Some {
        lemma_free_lane_from(active, j + 1);
    }
}

proof fn lemma_alloc_valid(s: Lanes, n: nat, j: int)
    requires
        lanes_valid(s, n),
        0 <= j < n,
        s.lane_of[j] is None,
    ensures
        lanes_valid(alloc_lane(s, j), n),
        alloc_lane(s, j).lane_of[j] is Some,
        s.next_color < usize::MAX,
        s.active.len() <= alloc_lane(s, j).active.len(),
        forall|q: int| 0 <= q < s.active.len() ==> alloc_lane(s, j).active[q] == s.active[q],
{
    lemma_free_lane_from(s.active, 0);
    lemma_count_some_lt(s.lane_of, j);
    lemma_count_some_update(s.lane_of, j, Some(spec_free_lane(s.active)));
    let t = alloc_lane(s, j);
    let lane = spec_free_lane(s.active);
    if lane >= s.active.len() {
        let m = (lane + 1 - s.active.len()) as nat;
        assert forall|q: int| 0 <= q < t.active.len() && #[trigger] t.active[q] is Some implies t.active[q]->0 < n by {
            if q >= s.active.len() {
                assert(t.active[q] == Seq::new(m, |_k: int| None::<usize>)[q - s.active.len()]);
            }
        }
    }
    assert forall|k: int| 0 <= k < n && #[trigger] t.lane_of[k] is Some implies t.lane_of[k]->0 < t.active.len() by {
        if k != j {
            assert(t.lane_of[k] == s.lane_of[k]);
        }
    }
}

proof fn lemma_place_row_valid(s: Lanes, n: nat, i: int)
    requires
        lanes_valid(s, n),
        0 <= i < n,
    ensures
        lanes_valid(place_row(s, i), n),
        place_row(s, i).lane_of[i] is Some,
        place_row(s, i).lane_of[i]->0 < place_row(s, i).active.len(),
{
    let s1 = if s.lane_of[i] is None { alloc_lane(s, i) } else { s };
    if s.lane_of[i] is None {
        lemma_alloc_valid(s, n, i);
    }
    assert(lanes_valid(s1, n));
    let lane = s1.lane_of[i]->0;
    assert(lane < s1.active.len());
    let active = s1.active.update(lane as int, Some(i as usize));
    lemma_count_some_le(active);
    let t = place_row(s, i);
    assert forall|q: int| 0 <= q < t.active.len() && #[trigger] t.active[q] is Some implies t.active[q]->0 < n by {
        if q != lane {
            assert(t.active[q] == s1.active[q]);
        }
    }
}

proof fn lemma_inherit_valid(s: Lanes, n: nat, i: int, ps: Seq<usize>)
    requires
        lanes_valid(s, n),
        0 <= i < n,
        s.lane_of[i] is Some,
        forall|k: int| 0 <= k < ps.len() ==> ps[k] < n,
    ensures
        lanes_valid(inherit_first(s, i, ps), n),
        inherit_first(s, i, ps).lane_of[i] == s.lane_of[i],
        inherit_first(s, i, ps).color_of[i] == s.color_of[i],
        inherit_first(s, i, ps).active == s.active,
{
    if ps.len() > 0 && s.lane_of[ps[0] as int] is None {
        let p = ps[0] as int;
        lemma_count_some_update(s.lane_of, p, s.lane_of[i]);
        let t = inherit_first(s, i, ps);
        assert forall|k: int| 0 <= k < n && #[trigger] t.lane_of[k] is Some implies t.lane_of[k]->0 < t.active.len() by {
            if k != p {
                assert(t.lane_of[k] == s.lane_of[k]);
            }
        }
    }
}

proof fn lemma_extras_valid(s: Lanes, n: nat, i: int, ps: Seq<usize>, k: int)
    requires
        lanes_valid(s, n),
        0 <= i < n,
        s.lane_of[i] is Some,
        forall|q: int| 0 <= q < ps.len() ==> ps[q] < n,
        k <= ps.len(),
    ensures
        lanes_valid(extra_parents(s, ps, k), n),
        extra_parents(s, ps, k).lane_of[i] == s.lane_of[i],
        extra_parents(s, ps, k).color_of[i] == s.color_of[i],
        s.active.len() <= extra_parents(s, ps, k).active.len(),
        forall|q: int|
            0 <= q < s.active.len() ==> extra_parents(s, ps, k).active[q] == s.active[q],
    decreases k,
{
    if k > 1 {
        lemma_extras_valid(s, n, i, ps, k - 1);
        let prev = extra_parents(s, ps, k - 1);
        let p = ps[k - 1];
        if prev.lane_of[p as int] is None {
            lemma_alloc_valid(prev, n, p as int);
        }
    }
}

/// After the first `k` rows, every row below `k` has a lane.
proof fn lemma_run_valid(commits: Seq<Commit>, k: int)
    requires
        0 <= k <= commits.len(),
        commits.len() <= usize::MAX,
    ensures
        lanes_valid(layout_run(commits, k).lanes, commits.len()),
        layout_run(commits, k).nodes.len() == k,
    decreases k,
{
    let n = commits.len();
    if k <= 0 {
        let s = initial_lanes(n);
        assert(count_some(s.lane_of) >= 0);
    } else {
        lemma_run_valid(commits, k - 1);
        let s = layout_run(commits, k - 1).lanes;
        lemma_row_valid(commits, s, k - 1);
    }
}

proof fn lemma_resolved_in_range(commits: Seq<Commit>, i: int, m: int)
    requires
        0 <= i < commits.len(),
        commits.len() <= usize::MAX,
        m <= commits[i].parents@.len(),
    ensures
        forall|q: int|
            0 <= q < resolve_prefix(commits, i, m).len() ==> resolve_prefix(commits, i, m)[q]
                < commits.len(),
    decreases m,
{
    if m > 0 {
        lemma_resolved_in_range(commits, i, m - 1);
        let s = commits[i].parents@[m - 1]@;
        assert(ids_of(commits).len() == commits.len());
        lemma_last_index_in_range(ids_of(commits), s, commits.len() as int);
        let prev = resolve_prefix(commits, i, m - 1);
        match last_index_of(ids_of(commits), s, commits.len() as int) {
            Some(j) => {
                assert(resolve_prefix(commits, i, m) == prev.push(j));
                assert(j < commits.len());
            },
            None => {
                assert(resolve_prefix(commits, i, m) == prev);
            },
        }
    }
}

proof fn lemma_last_index_in_range(ids: Seq<Seq<char>>, s: Seq<char>, k: int)
    requires
        k <= ids.len(),
        ids.len() <= usize::MAX,
    ensures
        last_index_of(ids, s, k) matches Some(j) ==> j < k && ids[j as int] == s,
    decreases k,
{
    if k > 0 && ids[k - 1] != s {
        lemma_last_index_in_range(ids, s, k - 1);
    }
}

/// The bookkeeping stays consistent through one row.
proof fn lemma_row_valid(commits: Seq<Commit>, s: Lanes, i: int)
    requires
        lanes_valid(s, commits.len()),
        0 <= i < commits.len(),
    ensures
        lanes_valid(place_row(s, i), commits.len()),
        lanes_valid(row_lanes(s, commits, i), commits.len()),
        lanes_valid(after_row(s, commits, i), commits.len()),
        place_row(s, i).lane_of[i] is Some,
        row_lanes(s, commits, i).lane_of[i] == place_row(s, i).lane_of[i],
        row_lanes(s, commits, i).color_of[i] == place_row(s, i).color_of[i],
        place_row(s, i).lane_of[i]->0 < row_lanes(s, commits, i).active.len(),
        forall|q: int|
            0 <= q < resolved_parents(commits, i).len() ==> resolved_parents(commits, i)[q]
                < commits.len(),
{
    let n = commits.len();
    let ps = resolved_parents(commits, i);
    lemma_resolved_in_range(commits, i, commits[i].parents@.len() as int);
    lemma_place_row_valid(s, n, i);
    let s1 = place_row(s, i);
    lemma_inherit_valid(s1, n, i, ps);
    let s2 = inherit_first(s1, i, ps);
    lemma_extras_valid(s2, n, i, ps, ps.len() as int);
    let s3 = row_lanes(s, commits, i);
    if ps.len() == 0 {
        let lane = s1.lane_of[i]->0;
        let t = after_row(s, commits, i);
        assert forall|q: int| 0 <= q < t.active.len() && #[trigger] t.active[q] is Some implies t.active[q]->0 < n by {
            assert(t.active[q] == s3.active[q]);
        }
    }
}

// ── The layout, computed ──────────────────────────────────────────────

/// The lowest lane that is free, or the number of lanes when every lane is
/// in use.
pub fn free_lane(active: &[Option<usize>]) -> (lane: usize)
    ensures
        lane == spec_free_lane(active@),
{
    let mut j: usize = 0;
    while j < active.len()
        invariant
            j <= active.len(),
            free_lane_from(active@, j as int) == free_lane_from(active@, 0),
        decreases active.len() - j,
    {
        if active[j].is_none() {
            return j;
        }
        j = j + 1;
    }
    j
}

/// Adds free lanes until lane `lane` exists.
pub fn grow_to(active: &mut Vec<Option<usize>>, lane: usize)
    requires
        lane < usize::MAX,
    ensures
        final(active)@ == spec_grow(old(active)@, lane),
{
    let ghost start = active@;
    while active.len() <= lane
        invariant
            lane < usize::MAX,
            start.len() <= active.len(),
            active.len() <= start.len() || active.len() <= lane + 1,
            active@ =~= start + Seq::new((active.len() - start.len()) as nat, |_k: int| None::<usize>),
        decreases lane + 1 - active.len(),
    {
        active.push(None);
    }
    proof {
        if lane < start.len() {
            assert(active@ =~= start);
        }
    }
}

/// The number of lanes in use.
fn count_occupied(active: &Vec<Option<usize>>) -> (count: usize)
    ensures
        count == count_some(active@),
{
    let mut count: usize = 0;
    let mut j: usize = 0;
    while j < active.len()
        invariant
            j <= active.len(),
            count == count_some(active@.take(j as int)),
            count <= j,
        decreases active.len() - j,
    {
        assert(active@.take(j + 1).drop_last() =~= active@.take(j as int));
        if active[j].is_some() {
            count = count + 1;
        }
        j = j + 1;
    }
    assert(active@.take(j as int) =~= active@);
    count
}

/// The lane bookkeeping, as the layout runs.
struct LaneTable {
    lane_of: Vec<Option<usize>>,
    color_of: Vec<usize>,
    active: Vec<Option<usize>>,
    next_color: usize,
    max_lanes: usize,
}

impl View for LaneTable {
    type V = Lanes;

    closed spec fn view(&self) -> Lanes {
        Lanes {
            lane_of: self.lane_of@,
            color_of: self.color_of@,
            active: self.active@,
            next_color: self.next_color,
            max_lanes: self.max_lanes,
        }
    }
}

impl LaneTable {
    fn new(n: usize) -> (t: Self)
        ensures
            t@ == initial_lanes(n as nat),
    {
        let mut lane_of: Vec<Option<usize>> = Vec::new();
        let mut color_of: Vec<usize> = Vec::new();
        let mut k: usize = 0;
        while k < n
            invariant
                k <= n,
                lane_of@ =~= Seq::new(k as nat, |_k: int| None::<usize>),
                color_of@ =~= Seq::new(k as nat, |_k: int| 0usize),
            decreases n - k,
        {
            lane_of.push(None);
            color_of.push(0);
            k = k + 1;
        }
        LaneTable { lane_of, color_of, active: Vec::new(), next_color: 0, max_lanes: 0 }
    }

    fn give_lane(&mut self, j: usize, Ghost(n): Ghost<nat>)
        requires
            lanes_valid(old(self)@, n),
            j < n,
            old(self)@.lane_of[j as int] is None,
        ensures
            final(self)@ == alloc_lane(old(self)@, j as int),
    {
        proof {
            lemma_alloc_valid(self@, n, j as int);
            lemma_free_lane_from(self@.active, 0);
        }
        let lane = free_lane(self.active.as_slice());
        grow_to(&mut self.active, lane);
        self.lane_of.set(j, Some(lane));
        self.color_of.set(j, self.next_color);
        self.next_color = self.next_color + 1;
    }

    fn place(&mut self, i: usize, Ghost(n): Ghost<nat>)
        requires
            lanes_valid(old(self)@, n),
            i < n,
        ensures
            final(self)@ == place_row(old(self)@, i as int),
    {
        proof {
            lemma_place_row_valid(self@, n, i as int);
        }
        if self.lane_of[i].is_none() {
            proof {
                lemma_alloc_valid(self@, n, i as int);
            }
            self.give_lane(i, Ghost(n));
        }
        let lane = self.lane_of[i].unwrap();
        self.active.set(lane, Some(i));
        let width = count_occupied(&self.active);
        if self.max_lanes < width {
            self.max_lanes = width;
        }
    }

    fn inherit(&mut self, i: usize, parents: &Vec<usize>, Ghost(n): Ghost<nat>)
        requires
            lanes_valid(old(self)@, n),
            i < n,
            old(self)@.lane_of[i as int] is Some,
            forall|k: int| 0 <= k < parents@.len() ==> parents@[k] < n,
        ensures
            final(self)@ == inherit_first(old(self)@, i as int, parents@),
    {
        if parents.len() > 0 {
            let p0 = parents[0];
            if self.lane_of[p0].is_none() {
                let lane = self.lane_of[i];
                let color = self.color_of[i];
                self.lane_of.set(p0, lane);
                self.color_of.set(p0, color);
            }
        }
    }

    fn extras(&mut self, i: usize, parents: &Vec<usize>, Ghost(n): Ghost<nat>)
        requires
            lanes_valid(old(self)@, n),
            i < n,
            old(self)@.lane_of[i as int] is Some,
            forall|k: int| 0 <= k < parents@.len() ==> parents@[k] < n,
        ensures
            final(self)@ == extra_parents(old(self)@, parents@, parents@.len() as int),
    {
        let ghost start = self@;
        let mut k: usize = 1;
        while k < parents.len()
            invariant
                1 <= k,
                k <= parents@.len() || k == 1,
                i < n,
                start.lane_of[i as int] is Some,
                lanes_valid(start, n),
                forall|q: int| 0 <= q < parents@.len() ==> parents@[q] < n,
                self@ == extra_parents(start, parents@, k as int),
            decreases parents@.len() - k,
        {
            proof {
                lemma_extras_valid(start, n, i as int, parents@, k as int);
            }
            let p = parents[k];
            if self.lane_of[p].is_none() {
                self.give_lane(p, Ghost(n));
            }
            k = k + 1;
        }
        proof {
            if parents@.len() == 0 {
                assert(extra_parents(start, parents@, 1) == start);
                assert(extra_parents(start, parents@, 0) == start);
            }
        }
    }
}

/// The list indices of the parents of commit `i` that are in the list.
fn resolve_parents(commits: &[Commit], i: usize, id_to_idx: &StringHashMap<usize>) -> (ps: Vec<usize>)
    requires
        i < commits@.len(),
        forall|s: Seq<char>|
            #![trigger id_to_idx@.contains_key(s)]
            id_to_idx@.contains_key(s) <==> last_index_of(
                ids_of(commits@),
                s,
                commits@.len() as int,
            ) is Some,
        forall|s: Seq<char>|
            #![trigger id_to_idx@[s]]
            id_to_idx@.contains_key(s) ==> Some(id_to_idx@[s]) == last_index_of(
                ids_of(commits@),
                s,
                commits@.len() as int,
            ),
    ensures
        ps@ == resolved_parents(commits@, i as int),
{
    let parents = &commits[i].parents;
    let mut ps: Vec<usize> = Vec::new();
    let mut m: usize = 0;
    while m < parents.len()
        invariant
            m <= parents@.len(),
            parents == commits@[i as int].parents,
            i < commits@.len(),
            ps@ == resolve_prefix(commits@, i as int, m as int),
            forall|s: Seq<char>|
                #![trigger id_to_idx@.contains_key(s)]
                id_to_idx@.contains_key(s) <==> last_index_of(
                    ids_of(commits@),
                    s,
                    commits@.len() as int,
                ) is Some,
            forall|s: Seq<char>|
                #![trigger id_to_idx@[s]]
                id_to_idx@.contains_key(s) ==> Some(id_to_idx@[s]) == last_index_of(
                    ids_of(commits@),
                    s,
                    commits@.len() as int,
                ),
        decreases parents@.len() - m,
    {
        match id_to_idx.get(parents[m].as_str()) {
            Some(j) => {
                ps.push(*j);
            },
            None => {},
        }
        m = m + 1;
    }
    ps
}

/// The vertical edges of the lanes in use by commits other than row `i`,
/// then the edges from lane `my_lane` to the lanes of the further parents.
fn build_edges(table: &LaneTable, i: usize, my_lane: usize, parents: &Vec<usize>, Ghost(n): Ghost<nat>) -> (edges: Vec<Edge>)
    requires
        lanes_valid(table@, n),
        forall|k: int| 0 <= k < parents@.len() ==> parents@[k] < n,
        forall|k: int| 0 <= k < parents@.len() ==> table@.lane_of[parents@[k] as int] is Some,
    ensures
        edges@ == carry_edges(table@.active, table@.color_of, i, table@.active.len() as int)
            + merge_edges(table@.lane_of, table@.color_of, my_lane, parents@, parents@.len() as int),
{
    let mut edges: Vec<Edge> = Vec::new();
    let mut li: usize = 0;
    while li < table.active.len()
        invariant
            li <= table@.active.len(),
            lanes_valid(table@, n),
            edges@ == carry_edges(table@.active, table@.color_of, i, li as int),
        decreases table@.active.len() - li,
    {
        match table.active[li] {
            Some(ci) => {
                if ci != i {
                    edges.push(Edge { from_lane: li, to_lane: li, color_idx: table.color_of[ci] });
                }
            },
            None => {},
        }
        li = li + 1;
    }
    let ghost carried = edges@;
    let mut k: usize = 1;
    while k < parents.len()
        invariant
            1 <= k,
            k <= parents@.len() || k == 1,
            lanes_valid(table@, n),
            forall|q: int| 0 <= q < parents@.len() ==> parents@[q] < n,
            forall|q: int| 0 <= q < parents@.len() ==> table@.lane_of[parents@[q] as int] is Some,
            edges@ == carried + merge_edges(table@.lane_of, table@.color_of, my_lane, parents@, k as int),
        decreases parents@.len() - k,
    {
        let p = parents[k];
        let to = table.lane_of[p].unwrap();
        edges.push(Edge { from_lane: my_lane, to_lane: to, color_idx: table.color_of[p] });
        k = k + 1;
    }
    proof {
        if parents@.len() <= 1 {
            assert(merge_edges(table@.lane_of, table@.color_of, my_lane, parents@, 1) =~= Seq::<Edge>::empty());
            assert(merge_edges(table@.lane_of, table@.color_of, my_lane, parents@, 0) =~= Seq::<Edge>::empty());
        }
    }
    edges
}

impl GraphLayout {
    /// Lays out the commit graph of `commits`, taken in list order from the
    /// newest row at the top.
    pub fn compute(commits: &[Commit]) -> (layout: Self)
        ensures
            layout@ == spec_layout(commits@),
            layout@.nodes.len() == commits@.len(),
            forall|i: int| 0 <= i < commits@.len() ==> #[trigger] layout@.nodes[i].commit_idx == i,
            layout@.max_lanes >= 1,
    {
        let n = commits.len();
        proof {
            layout_rows_follow_commits(commits@);
        }
        let ghost ids = ids_of(commits@);
        let mut id_to_idx: StringHashMap<usize> = StringHashMap::new();
        let mut k: usize = 0;
        while k < n
            invariant
                k <= n,
                n == commits@.len(),
                ids == ids_of(commits@),
                forall|s: Seq<char>|
                    #![trigger id_to_idx@.contains_key(s)]
                    id_to_idx@.contains_key(s) <==> last_index_of(ids, s, k as int) is Some,
                forall|s: Seq<char>|
                    #![trigger id_to_idx@[s]]
                    id_to_idx@.contains_key(s) ==> Some(id_to_idx@[s]) == last_index_of(ids, s, k as int),
            decreases n - k,
        {
            let id = commits[k].id.clone();
            assert(ids[k as int] == commits@[k as int].id@);
            id_to_idx.insert(id, k);
            k = k + 1;
        }

        let mut table = LaneTable::new(n);
        let mut nodes: Vec<GraphNode> = Vec::new();
        let mut i: usize = 0;
        while i < n
            invariant
                i <= n,
                n == commits@.len(),
                ids == ids_of(commits@),
                forall|s: Seq<char>|
                    #![trigger id_to_idx@.contains_key(s)]
                    id_to_idx@.contains_key(s) <==> last_index_of(ids, s, n as int) is Some,
                forall|s: Seq<char>|
                    #![trigger id_to_idx@[s]]
                    id_to_idx@.contains_key(s) ==> Some(id_to_idx@[s]) == last_index_of(ids, s, n as int),
                table@ == layout_run(commits@, i as int).lanes,
                nodes@.map_values(|g: GraphNode| g@) == layout_run(commits@, i as int).nodes,
            decreases n - i,
        {
            let ghost n_nat = n as nat;
            let ghost s0 = table@;
            proof {
                lemma_run_valid(commits@, i as int);
                lemma_row_valid(commits@, s0, i as int);
            }
            table.place(i, Ghost(n_nat));
            let my_lane = table.lane_of[i].unwrap();
            let my_color = table.color_of[i];
            let parents = resolve_parents(commits, i, &id_to_idx);
            proof {
                lemma_inherit_valid(table@, n_nat, i as int, parents@);
            }
            table.inherit(i, &parents, Ghost(n_nat));
            table.extras(i, &parents, Ghost(n_nat));
            proof {
                lemma_parents_placed(commits@, s0, i as int);
            }
            let edges = build_edges(&table, i, my_lane, &parents, Ghost(n_nat));
            if parents.len() == 0 {
                table.active.set(my_lane, None);
            }
            let node = GraphNode { commit_idx: i, lane: my_lane, color_idx: my_color, edges };
            nodes.push(node);
            proof {
                assert(nodes@.map_values(|g: GraphNode| g@) =~= layout_run(commits@, i as int).nodes.push(
                    row_node(s0, commits@, i as int),
                ));
            }
            i = i + 1;
        }
        let max_lanes = if table.max_lanes >= 1 { table.max_lanes } else { 1 };
        GraphLayout { nodes, max_lanes }
    }
}

/// After the parent handling of a row, every parent of the row in the list
/// has a lane.
proof fn lemma_parents_placed(commits: Seq<Commit>, s: Lanes, i: int)
    requires
        lanes_valid(s, commits.len()),
        0 <= i < commits.len(),
    ensures
        forall|k: int|
            0 <= k < resolved_parents(commits, i).len() ==> row_lanes(s, commits, i).lane_of[resolved_parents(commits, i)[k] as int] is Some,
{
    let ps = resolved_parents(commits, i);
    lemma_row_valid(commits, s, i);
    let s1 = place_row(s, i);
    let s2 = inherit_first(s1, i, ps);
    lemma_inherit_valid(s1, commits.len(), i, ps);
    assert(ps.len() > 0 ==> s2.lane_of[ps[0] as int] is Some);
    lemma_extras_place(s2, commits.len(), i, ps, ps.len() as int);
}

proof fn lemma_extras_place(s: Lanes, n: nat, i: int, ps: Seq<usize>, k: int)
    requires
        lanes_valid(s, n),
        0 <= i < n,
        s.lane_of[i] is Some,
        forall|q: int| 0 <= q < ps.len() ==> ps[q] < n,
        k <= ps.len(),
    ensures
        forall|q: int| 0 <= q < ps.len() && #[trigger] s.lane_of[ps[q] as int] is Some ==> extra_parents(s, ps, k).lane_of[ps[q] as int] == s.lane_of[ps[q] as int],
        forall|q: int| 1 <= q < k ==> extra_parents(s, ps, k).lane_of[ps[q] as int] is Some,
    decreases k,
{
    if k > 1 {
        lemma_extras_place(s, n, i, ps, k - 1);
        lemma_extras_valid(s, n, i, ps, k - 1);
        let prev = extra_parents(s, ps, k - 1);
        let p = ps[k - 1];
        if prev.lane_of[p as int] is None {
            lemma_alloc_valid(prev, n, p as int);
        }
    }
}

// ── Laws of the layout ────────────────────────────────────────────────

/// Row `j` of the first `m` rows is the node that row `j` was given.
proof fn lemma_run_nodes(commits: Seq<Commit>, m: int, j: int)
    requires
        0 <= j < m <= commits.len(),
    ensures
        layout_run(commits, m).nodes[j] == row_node(layout_run(commits, j).lanes, commits, j),
    decreases m,
{
    if m > j + 1 {
        lemma_run_nodes(commits, m - 1, j);
        let prev = layout_run(commits, m - 1);
        assert(layout_run(commits, m).nodes == prev.nodes.push(row_node(prev.lanes, commits, m - 1)));
        assert(commits.len() <= usize::MAX ==> layout_run(commits, m - 1).nodes.len() == m - 1) by {
            if commits.len() <= usize::MAX {
                lemma_run_valid(commits, m - 1);
            }
        }
        lemma_run_len(commits, m - 1);
    } else {
        lemma_run_len(commits, j);
    }
}

proof fn lemma_run_len(commits: Seq<Commit>, m: int)
    requires
        0 <= m <= commits.len(),
    ensures
        layout_run(commits, m).nodes.len() == m,
    decreases m,
{
    if m > 0 {
        lemma_run_len(commits, m - 1);
    }
}

/// The layout has one row per commit, in list order, and is at least one
/// lane wide.
pub proof fn layout_rows_follow_commits(commits: Seq<Commit>)
    requires
        commits.len() <= usize::MAX,
    ensures
        spec_layout(commits).nodes.len() == commits.len(),
        forall|i: int|
            0 <= i < commits.len() ==> #[trigger] spec_layout(commits).nodes[i].commit_idx == i,
        spec_layout(commits).max_lanes >= 1,
{
    let n = commits.len() as int;
    lemma_run_len(commits, n);
    assert forall|i: int| 0 <= i < n implies #[trigger] spec_layout(commits).nodes[i].commit_idx == i by {
        lemma_run_nodes(commits, n, i);
    }
}

proof fn lemma_carry_vertical(active: Seq<Option<usize>>, color_of: Seq<usize>, i: usize, k: int)
    ensures
        forall|q: int|
            0 <= q < carry_edges(active, color_of, i, k).len() ==> #[trigger] carry_edges(
                active,
                color_of,
                i,
                k,
            )[q].from_lane == carry_edges(active, color_of, i, k)[q].to_lane,
    decreases k,
{
    if k > 0 {
        lemma_carry_vertical(active, color_of, i, k - 1);
        let prev = carry_edges(active, color_of, i, k - 1);
        let cur = carry_edges(active, color_of, i, k);
        assert forall|q: int| 0 <= q < cur.len() implies #[trigger] cur[q].from_lane == cur[q].to_lane by {
            if q < prev.len() {
                assert(cur[q] == prev[q]);
            }
        }
    }
}

proof fn lemma_merge_from(
    lane_of: Seq<Option<usize>>,
    color_of: Seq<usize>,
    my_lane: usize,
    ps: Seq<usize>,
    k: int,
)
    ensures
        forall|q: int|
            0 <= q < merge_edges(lane_of, color_of, my_lane, ps, k).len() ==> #[trigger] merge_edges(
                lane_of,
                color_of,
                my_lane,
                ps,
                k,
            )[q].from_lane == my_lane,
    decreases k,
{
    if k > 1 {
        lemma_merge_from(lane_of, color_of, my_lane, ps, k - 1);
        let prev = merge_edges(lane_of, color_of, my_lane, ps, k - 1);
        let cur = merge_edges(lane_of, color_of, my_lane, ps, k);
        assert forall|q: int| 0 <= q < cur.len() implies #[trigger] cur[q].from_lane == my_lane by {
            if q < prev.len() {
                assert(cur[q] == prev[q]);
            }
        }
    }
}

/// Every edge of a row either carries a lane straight down or leaves from
/// the row's own lane towards a further parent.
pub proof fn layout_edges_carry_or_leave_own_lane(commits: Seq<Commit>, i: int, q: int)
    requires
        0 <= i < commits.len(),
        0 <= q < spec_layout(commits).nodes[i].edges.len(),
    ensures
        ({
            let node = spec_layout(commits).nodes[i];
            node.edges[q].from_lane == node.edges[q].to_lane || node.edges[q].from_lane == node.lane
        }),
{
    let n = commits.len() as int;
    lemma_run_nodes(commits, n, i);
    let s = layout_run(commits, i).lanes;
    let ps = resolved_parents(commits, i);
    let my_lane = place_row(s, i).lane_of[i]->0;
    let s3 = row_lanes(s, commits, i);
    let carry = carry_edges(s3.active, s3.color_of, i as usize, s3.active.len() as int);
    let merge = merge_edges(s3.lane_of, s3.color_of, my_lane, ps, ps.len() as int);
    lemma_carry_vertical(s3.active, s3.color_of, i as usize, s3.active.len() as int);
    lemma_merge_from(s3.lane_of, s3.color_of, my_lane, ps, ps.len() as int);
    let edges = carry + merge;
    if q < carry.len() {
        assert(edges[q] == carry[q]);
    } else {
        assert(edges[q] == merge[q - carry.len()]);
    }
}

/// `t` keeps every lane and colour that `s` has given.
pub open spec fn keeps(s: Lanes, t: Lanes) -> bool {
    &&& t.lane_of.len() == s.lane_of.len()
    &&& t.color_of.len() == s.color_of.len()
    &&& forall|j: int|
        0 <= j < s.lane_of.len() && #[trigger] s.lane_of[j] is Some ==> t.lane_of[j] == s.lane_of[j]
            && t.color_of[j] == s.color_of[j]
}

proof fn lemma_keeps_trans(a: Lanes, b: Lanes, c: Lanes)
    requires
        keeps(a, b),
        keeps(b, c),
    ensures
        keeps(a, c),
{
}

proof fn lemma_alloc_keeps(s: Lanes, j: int)
    requires
        0 <= j < s.lane_of.len(),
        s.color_of.len() == s.lane_of.len(),
        s.lane_of[j] is None,
    ensures
        keeps(s, alloc_lane(s, j)),
        forall|k: int| 0 <= k < s.lane_of.len() && k != j ==> #[trigger] alloc_lane(s, j).lane_of[k] == s.lane_of[k],
{
    let t = alloc_lane(s, j);
    assert forall|k: int| 0 <= k < s.lane_of.len() && k != j implies #[trigger] t.lane_of[k] == s.lane_of[k] && t.color_of[k] == s.color_of[k] by {
    }
}

proof fn lemma_place_keeps(s: Lanes, n: nat, i: int)
    requires
        lanes_valid(s, n),
        0 <= i < n,
    ensures
        keeps(s, place_row(s, i)),
        forall|k: int| 0 <= k < n && k != i ==> #[trigger] place_row(s, i).lane_of[k] == s.lane_of[k],
{
    if s.lane_of[i] is None {
        lemma_alloc_keeps(s, i);
    }
}

proof fn lemma_inherit_keeps(s: Lanes, n: nat, i: int, ps: Seq<usize>)
    requires
        lanes_valid(s, n),
        0 <= i < n,
        forall|q: int| 0 <= q < ps.len() ==> ps[q] < n,
    ensures
        keeps(s, inherit_first(s, i, ps)),
        forall|k: int|
            0 <= k < n && (ps.len() == 0 || k != ps[0]) ==> #[trigger] inherit_first(s, i, ps).lane_of[k]
                == s.lane_of[k],
{
    let t = inherit_first(s, i, ps);
    if ps.len() > 0 && s.lane_of[ps[0] as int] is None {
        assert forall|k: int| 0 <= k < n && k != ps[0] implies #[trigger] t.lane_of[k] == s.lane_of[k] && t.color_of[k] == s.color_of[k] by {
        }
    }
}

proof fn lemma_extras_keep(s: Lanes, n: nat, i: int, ps: Seq<usize>, k: int)
    requires
        lanes_valid(s, n),
        0 <= i < n,
        s.lane_of[i] is Some,
        forall|q: int| 0 <= q < ps.len() ==> ps[q] < n,
        k <= ps.len(),
    ensures
        keeps(s, extra_parents(s, ps, k)),
        forall|j: int|
            0 <= j < n && (forall|q: int| 1 <= q < k ==> ps[q] != j) ==> #[trigger] extra_parents(
                s,
                ps,
                k,
            ).lane_of[j] == s.lane_of[j],
    decreases k,
{
    if k > 1 {
        lemma_extras_keep(s, n, i, ps, k - 1);
        lemma_extras_valid(s, n, i, ps, k - 1);
        let prev = extra_parents(s, ps, k - 1);
        let p = ps[k - 1] as int;
        if prev.lane_of[p] is None {
            lemma_alloc_keeps(prev, p);
            lemma_keeps_trans(s, prev, extra_parents(s, ps, k));
        }
        assert forall|j: int|
            0 <= j < n && (forall|q: int| 1 <= q < k ==> ps[q] != j) implies #[trigger] extra_parents(s, ps, k).lane_of[j] == s.lane_of[j] by {
            assert(ps[k - 1] != j);
            assert forall|q: int| 1 <= q < k - 1 implies ps[q] != j by {
                assert(1 <= q < k);
            }
        }
    }
}

/// The bookkeeping of one row keeps what earlier rows gave, and a commit
/// that the row does not name as a parent, and that is not the row itself,
/// stays without a lane if it had none.
proof fn lemma_row_keeps(commits: Seq<Commit>, s: Lanes, i: int)
    requires
        lanes_valid(s, commits.len()),
        0 <= i < commits.len(),
    ensures
        keeps(s, after_row(s, commits, i)),
        keeps(place_row(s, i), after_row(s, commits, i)),
        forall|j: int|
            0 <= j < commits.len() && j != i && !resolved_parents(commits, i).contains(j as usize)
                ==> #[trigger] after_row(s, commits, i).lane_of[j] == s.lane_of[j],
{
    let n = commits.len();
    let ps = resolved_parents(commits, i);
    lemma_row_valid(commits, s, i);
    lemma_place_row_valid(s, n, i);
    let s1 = place_row(s, i);
    if s.lane_of[i] is None {
        lemma_alloc_valid(s, n, i);
    }
    lemma_inherit_valid(s1, n, i, ps);
    let s2 = inherit_first(s1, i, ps);
    lemma_place_keeps(s, n, i);
    lemma_inherit_keeps(s1, n, i, ps);
    lemma_extras_keep(s2, n, i, ps, ps.len() as int);
    let s3 = row_lanes(s, commits, i);
    lemma_keeps_trans(s1, s2, s3);
    lemma_keeps_trans(s, s1, s3);
    assert forall|j: int|
        0 <= j < n && j != i && !ps.contains(j as usize) implies #[trigger] after_row(s, commits, i).lane_of[j] == s.lane_of[j] by {
        assert forall|q: int| 1 <= q < ps.len() implies ps[q] != j by {
            if ps[q] == j {
                assert(ps.contains(ps[q]));
            }
        }
        if ps.len() > 0 {
            assert(ps[0] != j) by {
                if ps[0] == j {
                    assert(ps.contains(ps[0]));
                }
            }
        }
    }
}

proof fn lemma_run_keeps(commits: Seq<Commit>, a: int, b: int)
    requires
        0 <= a <= b <= commits.len(),
        commits.len() <= usize::MAX,
    ensures
        keeps(layout_run(commits, a).lanes, layout_run(commits, b).lanes),
    decreases b - a,
{
    if a < b {
        lemma_run_keeps(commits, a, b - 1);
        lemma_run_valid(commits, b - 1);
        lemma_row_keeps(commits, layout_run(commits, b - 1).lanes, b - 1);
        lemma_run_valid(commits, a);
    }
}

/// A commit that no row before `k` names as a parent has no lane yet.
proof fn lemma_unnamed_without_lane(commits: Seq<Commit>, k: int, j: int)
    requires
        0 <= k <= j < commits.len(),
        commits.len() <= usize::MAX,
        forall|r: int| 0 <= r < k ==> !(#[trigger] resolved_parents(commits, r)).contains(j as usize),
    ensures
        layout_run(commits, k).lanes.lane_of[j] is None,
    decreases k,
{
    if k > 0 {
        lemma_unnamed_without_lane(commits, k - 1, j);
        lemma_run_valid(commits, k - 1);
        lemma_row_keeps(commits, layout_run(commits, k - 1).lanes, k - 1);
        assert(!resolved_parents(commits, k - 1).contains(j as usize));
    }
}

/// The first parent of a commit continues the commit's lane in the
/// commit's colour, when that parent comes later in the list and no earlier
/// row names it as a parent.
pub proof fn layout_first_parent_continues_lane(commits: Seq<Commit>, i: int)
    requires
        commits.len() <= usize::MAX,
        0 <= i < commits.len(),
        resolved_parents(commits, i).len() > 0,
        i < resolved_parents(commits, i)[0],
        forall|r: int|
            0 <= r < i ==> !(#[trigger] resolved_parents(commits, r)).contains(
                resolved_parents(commits, i)[0],
            ),
    ensures
        ({
            let p = resolved_parents(commits, i)[0] as int;
            let nodes = spec_layout(commits).nodes;
            nodes[p].lane == nodes[i].lane && nodes[p].color_idx == nodes[i].color_idx
        }),
{
    let n = commits.len() as int;
    let ps = resolved_parents(commits, i);
    let p = ps[0] as int;
    lemma_run_valid(commits, i);
    lemma_row_valid(commits, layout_run(commits, i).lanes, i);
    let s = layout_run(commits, i).lanes;
    lemma_unnamed_without_lane(commits, i, p);
    assert(s.lane_of[p] is None);
    let s1 = place_row(s, i);
    lemma_place_row_valid(s, n as nat, i);
    if s.lane_of[i] is None {
        lemma_alloc_valid(s, n as nat, i);
    }
    assert(s1.lane_of[p] is None);
    let s2 = inherit_first(s1, i, ps);
    assert(s2.lane_of[p] == s1.lane_of[i]);
    assert(s2.color_of[p] == s1.color_of[i]);
    lemma_inherit_valid(s1, n as nat, i, ps);
    lemma_extras_keep(s2, n as nat, i, ps, ps.len() as int);
    let after_i = layout_run(commits, i + 1).lanes;
    assert(after_i.lane_of[p] == s1.lane_of[i]);
    assert(after_i.color_of[p] == s1.color_of[i]);
    lemma_run_keeps(commits, i + 1, p);
    let sp = layout_run(commits, p).lanes;
    assert(sp.lane_of[p] == s1.lane_of[i]);
    assert(sp.color_of[p] == s1.color_of[i]);
    lemma_run_nodes(commits, n, i);
    lemma_run_nodes(commits, n, p);
}



// ── Colours of the lines carried past a row ──────────────────────────

proof fn lemma_alloc_fresh(s: Lanes, j: int)
    ensures
        s.active.len() <= alloc_lane(s, j).active.len(),
        forall|q: int| 0 <= q < s.active.len() ==> #[trigger] alloc_lane(s, j).active[q] == s.active[q],
        forall|q: int|
            s.active.len() <= q < alloc_lane(s, j).active.len() ==> #[trigger] alloc_lane(s, j).active[q] is None,
{
    let lane = spec_free_lane(s.active);
    let t = alloc_lane(s, j);
    if lane >= s.active.len() {
        let m = (lane + 1 - s.active.len()) as nat;
        assert forall|q: int| s.active.len() <= q < t.active.len() implies #[trigger] t.active[q] is None by {
            assert(t.active[q] == Seq::new(m, |_k: int| None::<usize>)[q - s.active.len()]);
        }
    }
}

proof fn lemma_extras_fresh(s: Lanes, ps: Seq<usize>, k: int)
    ensures
        s.active.len() <= extra_parents(s, ps, k).active.len(),
        forall|q: int| 0 <= q < s.active.len() ==> #[trigger] extra_parents(s, ps, k).active[q] == s.active[q],
        forall|q: int|
            s.active.len() <= q < extra_parents(s, ps, k).active.len() ==> #[trigger] extra_parents(
                s,
                ps,
                k,
            ).active[q] is None,
    decreases k,
{
    if k > 1 {
        lemma_extras_fresh(s, ps, k - 1);
        let prev = extra_parents(s, ps, k - 1);
        if prev.lane_of[ps[k - 1] as int] is None {
            lemma_alloc_fresh(prev, ps[k - 1] as int);
        }
    }
}

/// The lanes of `t` are those of `s`, with lane `my` holding row `i` or free,
/// and any added lanes free.
spec fn lanes_after_row(s: Seq<Option<usize>>, t: Seq<Option<usize>>, my: int, i: int) -> bool {
    &&& s.len() <= t.len()
    &&& 0 <= my < t.len()
    &&& (t[my] is None || t[my] == Some(i as usize))
    &&& forall|q: int| 0 <= q < t.len() && q != my ==> #[trigger] t[q] == if q < s.len() {
        s[q]
    } else {
        None
    }
}

proof fn lemma_row_lanes_active(commits: Seq<Commit>, s: Lanes, i: int)
    requires
        lanes_valid(s, commits.len()),
        0 <= i < commits.len(),
    ensures
        lanes_after_row(
            s.active,
            row_lanes(s, commits, i).active,
            place_row(s, i).lane_of[i]->0 as int,
            i,
        ),
        row_lanes(s, commits, i).active[place_row(s, i).lane_of[i]->0 as int] == Some(i as usize),
        lanes_after_row(
            s.active,
            after_row(s, commits, i).active,
            place_row(s, i).lane_of[i]->0 as int,
            i,
        ),
{
    lemma_row_valid(commits, s, i);
    let ps = resolved_parents(commits, i);
    let s1 = if s.lane_of[i] is None { alloc_lane(s, i) } else { s };
    if s.lane_of[i] is None {
        lemma_alloc_fresh(s, i);
    }
    let p = place_row(s, i);
    let my = p.lane_of[i]->0 as int;
    assert(p.active == s1.active.update(my, Some(i as usize)));
    let s2 = inherit_first(p, i, ps);
    assert(s2.active == p.active);
    lemma_extras_fresh(s2, ps, ps.len() as int);
    let s3 = row_lanes(s, commits, i);
    assert(s3 == extra_parents(s2, ps, ps.len() as int));
    assert(s3.active[my] == Some(i as usize));
    assert forall|q: int| 0 <= q < s3.active.len() && q != my implies #[trigger] s3.active[q] == if q < s.active.len() {
        s.active[q]
    } else {
        None
    } by {
        if q < p.active.len() {
            assert(s3.active[q] == p.active[q]);
            assert(p.active[q] == s1.active[q]);
        }
    }
    let a = after_row(s, commits, i);
    assert forall|q: int| 0 <= q < a.active.len() && q != my implies #[trigger] a.active[q] == if q < s.active.len() {
        s.active[q]
    } else {
        None
    } by {
        assert(a.active[q] == s3.active[q]);
    }
}

/// Each lane in use is held by a row already laid out, which has that lane,
/// and no later row laid out so far has that lane.
spec fn lanes_track_rows(run: LayoutRun, k: int) -> bool {
    forall|l: int|
        0 <= l < run.lanes.active.len() && #[trigger] run.lanes.active[l] is Some ==> {
            let c = run.lanes.active[l]->0;
            &&& c < k
            &&& run.lanes.lane_of[c as int] == Some(l as usize)
            &&& forall|r: int| 0 <= r < k && #[trigger] run.nodes[r].lane == l ==> r <= c
        }
}

proof fn lemma_run_tracks(commits: Seq<Commit>, k: int)
    requires
        0 <= k <= commits.len(),
        commits.len() <= usize::MAX,
    ensures
        lanes_track_rows(layout_run(commits, k), k),
    decreases k,
{
    if k > 0 {
        lemma_run_tracks(commits, k - 1);
        lemma_run_valid(commits, k - 1);
        let prev = layout_run(commits, k - 1);
        let s = prev.lanes;
        let i = k - 1;
        lemma_row_valid(commits, s, i);
        lemma_row_keeps(commits, s, i);
        lemma_row_lanes_active(commits, s, i);
        let my = place_row(s, i).lane_of[i]->0 as int;
        let cur = layout_run(commits, k);
        let a = cur.lanes;
        assert(a == after_row(s, commits, i));
        assert(cur.nodes == prev.nodes.push(row_node(s, commits, i)));
        assert(cur.nodes[i].lane == my);
        assert forall|l: int| 0 <= l < a.active.len() && #[trigger] a.active[l] is Some implies {
            let c = a.active[l]->0;
            &&& c < k
            &&& a.lane_of[c as int] == Some(l as usize)
            &&& forall|r: int| 0 <= r < k && #[trigger] cur.nodes[r].lane == l ==> r <= c
        } by {
            let c = a.active[l]->0;
            if l == my {
                assert(c == i);
                assert(place_row(s, i).lane_of[i] is Some);
                assert(a.lane_of[i] == place_row(s, i).lane_of[i]);
            } else {
                assert(l < s.active.len());
                assert(s.active[l] == a.active[l]);
                assert(s.lane_of[c as int] == Some(l as usize));
                assert forall|r: int| 0 <= r < k && #[trigger] cur.nodes[r].lane == l implies r <= c by {
                    if r < i {
                        assert(cur.nodes[r] == prev.nodes[r]);
                    }
                }
            }
        }
    }
}

proof fn lemma_carry_edge(active: Seq<Option<usize>>, color_of: Seq<usize>, i: usize, k: int, q: int) -> (l: int)
    requires
        0 <= q < carry_edges(active, color_of, i, k).len(),
        k <= active.len(),
    ensures
        0 <= l < k,
        active[l] is Some,
        active[l]->0 != i,
        carry_edges(active, color_of, i, k)[q] == (Edge {
            from_lane: l as usize,
            to_lane: l as usize,
            color_idx: color_of[active[l]->0 as int],
        }),
    decreases k,
{
    let prev = carry_edges(active, color_of, i, k - 1);
    if q < prev.len() {
        let l = lemma_carry_edge(active, color_of, i, k - 1, q);
        assert(carry_edges(active, color_of, i, k)[q] == prev[q]);
        l
    } else {
        k - 1
    }
}

/// A line carried straight down past a row, on a lane other than the row's
/// own, has the colour of the row most recently laid out on that lane: the
/// branch it continues keeps its colour.
pub proof fn layout_carried_lines_keep_their_colour(commits: Seq<Commit>, i: int, q: int)
    requires
        commits.len() <= usize::MAX,
        0 <= i < commits.len(),
        0 <= q < spec_layout(commits).nodes[i].edges.len(),
        spec_layout(commits).nodes[i].edges[q].from_lane != spec_layout(commits).nodes[i].lane,
    ensures
        ({
            let nodes = spec_layout(commits).nodes;
            let e = nodes[i].edges[q];
            &&& e.to_lane == e.from_lane
            &&& exists|j: int|
                0 <= j < i && #[trigger] nodes[j].lane == e.from_lane && e.color_idx == nodes[j].color_idx
                    && forall|r: int| j < r < i ==> nodes[r].lane != e.from_lane
        }),
{
    let n = commits.len() as int;
    let nodes = spec_layout(commits).nodes;
    lemma_run_nodes(commits, n, i);
    lemma_run_valid(commits, i);
    lemma_run_tracks(commits, i);
    let run = layout_run(commits, i);
    let s = run.lanes;
    lemma_row_valid(commits, s, i);
    lemma_row_keeps(commits, s, i);
    lemma_row_lanes_active(commits, s, i);
    let ps = resolved_parents(commits, i);
    let my = place_row(s, i).lane_of[i]->0;
    let s3 = row_lanes(s, commits, i);
    let carry = carry_edges(s3.active, s3.color_of, i as usize, s3.active.len() as int);
    let merge = merge_edges(s3.lane_of, s3.color_of, my, ps, ps.len() as int);
    assert(nodes[i].edges == carry + merge);
    assert(nodes[i].lane == my);
    lemma_merge_from(s3.lane_of, s3.color_of, my, ps, ps.len() as int);
    if q >= carry.len() {
        assert(nodes[i].edges[q] == merge[q - carry.len()]);
    }
    assert(q < carry.len());
    let l = lemma_carry_edge(s3.active, s3.color_of, i as usize, s3.active.len() as int, q);
    let e = nodes[i].edges[q];
    assert(e == carry[q]);
    let c = s3.active[l]->0;
    assert(l != my);
    assert(l < s.active.len());
    assert(s.active[l] == s3.active[l]);
    let ci = c as int;
    assert(ci < i && s.lane_of[ci] == Some(l as usize));
    // The row `ci` keeps the lane and colour it was laid out with.
    lemma_run_valid(commits, ci);
    let sc = layout_run(commits, ci).lanes;
    lemma_row_valid(commits, sc, ci);
    lemma_row_keeps(commits, sc, ci);
    lemma_run_keeps(commits, ci + 1, i);
    lemma_keeps_trans(place_row(sc, ci), layout_run(commits, ci + 1).lanes, s);
    lemma_run_nodes(commits, n, ci);
    assert(nodes[ci].lane == l);
    let a = after_row(s, commits, i);
    assert(a.color_of == s3.color_of);
    assert(e.color_idx == nodes[ci].color_idx);
    assert forall|r: int| ci < r < i implies nodes[r].lane != e.from_lane by {
        lemma_run_nodes(commits, n, r);
        lemma_run_nodes(commits, i, r);
        if nodes[r].lane == l {
            assert(run.nodes[r].lane == l);
        }
    }
}

// ── Parents outside the list ─────────────────────────────────────────

/// The parent identifiers of commit `i` that are identifiers of commits in
/// the list, in parent order.
pub open spec fn known_parents(commits: Seq<Commit>, i: int) -> Seq<Seq<char>> {
    texts_view(commits[i].parents@).filter(|p: Seq<char>| ids_of(commits).contains(p))
}

/// The list indices of the parent identifiers `ps` that are in `ids`, in
/// order.
spec fn resolve_ids(ids: Seq<Seq<char>>, ps: Seq<Seq<char>>) -> Seq<usize>
    decreases ps.len(),
{
    if ps.len() == 0 {
        Seq::empty()
    } else {
        let prev = resolve_ids(ids, ps.drop_last());
        match last_index_of(ids, ps.last(), ids.len() as int) {
            Some(j) => prev.push(j),
            None => prev,
        }
    }
}

proof fn lemma_last_index_found(ids: Seq<Seq<char>>, s: Seq<char>, k: int)
    requires
        0 <= k <= ids.len(),
    ensures
        last_index_of(ids, s, k) is Some <==> exists|j: int| 0 <= j < k && ids[j] == s,
    decreases k,
{
    if k > 0 {
        lemma_last_index_found(ids, s, k - 1);
        if ids[k - 1] != s {
            assert forall|j: int| 0 <= j < k && ids[j] == s implies 0 <= j < k - 1 && ids[j] == s by {}
        }
    }
}

proof fn lemma_resolve_prefix_ids(commits: Seq<Commit>, i: int, m: int)
    requires
        0 <= i < commits.len(),
        0 <= m <= commits[i].parents@.len(),
    ensures
        resolve_prefix(commits, i, m) == resolve_ids(
            ids_of(commits),
            texts_view(commits[i].parents@).take(m),
        ),
    decreases m,
{
    let ps = texts_view(commits[i].parents@);
    if m > 0 {
        lemma_resolve_prefix_ids(commits, i, m - 1);
        assert(ps.take(m).drop_last() =~= ps.take(m - 1));
    } else {
        assert(ps.take(0).len() == 0);
    }
}

proof fn lemma_resolve_ids_filter(ids: Seq<Seq<char>>, ps: Seq<Seq<char>>)
    ensures
        resolve_ids(ids, ps) == resolve_ids(ids, ps.filter(|p: Seq<char>| ids.contains(p))),
    decreases ps.len(),
{
    let pred = |p: Seq<char>| ids.contains(p);
    reveal(Seq::filter);
    if ps.len() > 0 {
        lemma_resolve_ids_filter(ids, ps.drop_last());
        lemma_last_index_found(ids, ps.last(), ids.len() as int);
        let f = ps.filter(pred);
        let fd = ps.drop_last().filter(pred);
        if pred(ps.last()) {
            assert(f == fd.push(ps.last()));
            assert(f.drop_last() =~= fd);
            assert(f.last() == ps.last());
        } else {
            assert(f == fd);
            assert(!(exists|j: int| 0 <= j < ids.len() && ids[j] == ps.last()));
        }
    }
}

/// The layout of a commit list depends on the parents of a commit only
/// through those that are commits of the list: adding or removing parent
/// identifiers that no commit of the list has leaves the layout unchanged.
pub proof fn layout_ignores_unknown_parents(commits: Seq<Commit>, other: Seq<Commit>)
    requires
        ids_of(commits) == ids_of(other),
        forall|i: int| 0 <= i < commits.len() ==> known_parents(commits, i) == known_parents(other, i),
    ensures
        spec_layout(commits) == spec_layout(other),
{
    assert(commits.len() == ids_of(commits).len());
    assert(other.len() == ids_of(other).len());
    assert forall|i: int| 0 <= i < commits.len() implies resolved_parents(commits, i)
        == resolved_parents(other, i) by {
        let ids = ids_of(commits);
        let a = texts_view(commits[i].parents@);
        let b = texts_view(other[i].parents@);
        lemma_resolve_prefix_ids(commits, i, commits[i].parents@.len() as int);
        lemma_resolve_prefix_ids(other, i, other[i].parents@.len() as int);
        assert(a.take(a.len() as int) =~= a);
        assert(b.take(b.len() as int) =~= b);
        lemma_resolve_ids_filter(ids, a);
        lemma_resolve_ids_filter(ids, b);
        assert(known_parents(commits, i) == known_parents(other, i));
    }
    lemma_layout_same_parents(commits, other, commits.len() as int);
}

proof fn lemma_layout_same_parents(commits: Seq<Commit>, other: Seq<Commit>, k: int)
    requires
        commits.len() == other.len(),
        k <= commits.len(),
        forall|i: int| 0 <= i < commits.len() ==> resolved_parents(commits, i) == resolved_parents(other, i),
    ensures
        layout_run(commits, k) == layout_run(other, k),
    decreases k,
{
    if k > 0 {
        lemma_layout_same_parents(commits, other, k - 1);
        assert(resolved_parents(commits, k - 1) == resolved_parents(other, k - 1));
    }
}

} // verus!
