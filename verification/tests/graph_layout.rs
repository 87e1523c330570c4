use gitk_rs::graph::{free_lane, grow_to, Edge, GraphLayout};
use gitk_rs::model::Commit;
use gitk_rs::palette::{branch_color, BRANCH_COLOR_COUNT};

fn commit(id: &str, parents: &[&str]) -> Commit {
    Commit {
        id: id.to_string(),
        short_id: id.chars().take(8).collect(),
        summary: String::new(),
        body: String::new(),
        author: String::new(),
        email: String::new(),
        timestamp: 0,
        date_str: String::new(),
        parents: parents.iter().map(|p| p.to_string()).collect(),
        refs: vec![],
    }
}

fn edge(from_lane: usize, to_lane: usize, color_idx: usize) -> Edge {
    Edge { from_lane, to_lane, color_idx }
}

#[test]
fn linear_history_stays_on_one_lane() {
    let commits = vec![commit("c", &["b"]), commit("b", &["a"]), commit("a", &[])];
    let g = GraphLayout::compute(&commits);
    assert_eq!(g.nodes.len(), 3);
    for (i, n) in g.nodes.iter().enumerate() {
        assert_eq!(n.commit_idx, i);
        assert_eq!(n.lane, 0);
        assert_eq!(n.color_idx, 0);
        assert!(n.edges.is_empty());
    }
    assert_eq!(g.max_lanes, 1);
}

#[test]
fn merge_opens_a_second_lane() {
    let commits = vec![
        commit("m", &["a", "b"]),
        commit("a", &["base"]),
        commit("b", &["base"]),
        commit("base", &[]),
    ];
    let g = GraphLayout::compute(&commits);
    assert_eq!(g.max_lanes, 2);
    let lanes: Vec<usize> = g.nodes.iter().map(|n| n.lane).collect();
    let colors: Vec<usize> = g.nodes.iter().map(|n| n.color_idx).collect();
    assert_eq!(lanes, vec![0, 0, 1, 0]);
    assert_eq!(colors, vec![0, 0, 1, 0]);
    assert_eq!(g.nodes[0].edges, vec![edge(0, 1, 1)]);
    assert!(g.nodes[1].edges.is_empty());
    assert_eq!(g.nodes[2].edges, vec![edge(0, 0, 0)]);
    assert_eq!(g.nodes[3].edges, vec![edge(1, 1, 1)]);
}

#[test]
fn octopus_merge_extra_parents_share_the_free_lane() {
    let commits = vec![
        commit("m", &["a", "b", "c"]),
        commit("a", &[]),
        commit("b", &[]),
        commit("c", &[]),
    ];
    let g = GraphLayout::compute(&commits);
    assert_eq!(g.nodes[0].edges, vec![edge(0, 1, 1), edge(0, 1, 2)]);
    assert_eq!(g.nodes[2].lane, 1);
    assert_eq!(g.nodes[3].lane, 1);
    assert_eq!(g.nodes[3].color_idx, 2);
}

#[test]
fn parent_outside_the_list_frees_the_lane() {
    let commits = vec![commit("x", &["missing"]), commit("y", &[])];
    let g = GraphLayout::compute(&commits);
    assert_eq!(g.nodes[0].lane, 0);
    assert!(g.nodes[0].edges.is_empty());
    assert_eq!(g.nodes[1].lane, 0);
    assert_eq!(g.nodes[1].color_idx, 1);
    assert_eq!(g.max_lanes, 1);
}

#[test]
fn empty_list_is_one_lane_wide() {
    let g = GraphLayout::compute(&[]);
    assert!(g.nodes.is_empty());
    assert_eq!(g.max_lanes, 1);
}

#[test]
fn duplicate_ids_resolve_to_the_last_commit() {
    let commits = vec![commit("c", &["a"]), commit("a", &[]), commit("a", &[])];
    let g = GraphLayout::compute(&commits);
    assert_eq!(g.nodes[1].lane, 1);
    assert_eq!(g.nodes[1].color_idx, 1);
    assert_eq!(g.nodes[1].edges, vec![edge(0, 0, 0)]);
    assert_eq!(g.nodes[2].lane, 0);
    assert_eq!(g.nodes[2].color_idx, 0);
    assert_eq!(g.max_lanes, 2);
}

#[test]
fn first_parent_continues_lane_and_colour() {
    let commits = vec![
        commit("top", &["side", "main"]),
        commit("x", &[]),
        commit("side", &[]),
        commit("main", &[]),
    ];
    let g = GraphLayout::compute(&commits);
    assert_eq!(g.nodes[2].lane, g.nodes[0].lane);
    assert_eq!(g.nodes[2].color_idx, g.nodes[0].color_idx);
}

#[test]
fn edges_carry_straight_down_or_leave_the_own_lane() {
    let commits = vec![
        commit("m", &["a", "b"]),
        commit("n", &["a", "c"]),
        commit("a", &[]),
        commit("b", &[]),
        commit("c", &[]),
    ];
    let g = GraphLayout::compute(&commits);
    for n in &g.nodes {
        for e in &n.edges {
            assert!(e.from_lane == e.to_lane || e.from_lane == n.lane);
        }
    }
}

#[test]
fn free_lane_picks_the_lowest_free_lane() {
    assert_eq!(free_lane(&[]), 0);
    assert_eq!(free_lane(&[Some(3), None, Some(1), None]), 1);
    assert_eq!(free_lane(&[Some(0), Some(1)]), 2);
}

#[test]
fn grow_to_adds_free_lanes() {
    let mut a = vec![Some(1)];
    grow_to(&mut a, 3);
    assert_eq!(a, vec![Some(1), None, None, None]);
    let mut b = vec![Some(1), Some(2)];
    grow_to(&mut b, 0);
    assert_eq!(b, vec![Some(1), Some(2)]);
}

#[test]
fn branch_colours_cycle_through_the_palette() {
    assert_eq!(branch_color(0), egui::Color32::from_rgb(0x4e, 0x9a, 0xe0));
    assert_eq!(branch_color(1), egui::Color32::from_rgb(0xe0, 0x74, 0x4e));
    assert_eq!(branch_color(9), egui::Color32::from_rgb(0xe0, 0x9e, 0x4e));
    assert_eq!(branch_color(BRANCH_COLOR_COUNT), branch_color(0));
    assert_eq!(branch_color(23), branch_color(3));
}

#[test]
fn unknown_parent_ids_do_not_change_the_layout() {
    let plain = vec![
        commit("m", &["b", "c"]),
        commit("b", &["a"]),
        commit("c", &["a"]),
        commit("a", &[]),
    ];
    let noisy = vec![
        commit("m", &["gone1", "b", "gone2", "c"]),
        commit("b", &["a", "gone3"]),
        commit("c", &["gone4", "a"]),
        commit("a", &["gone5"]),
    ];
    let g1 = GraphLayout::compute(&plain);
    let g2 = GraphLayout::compute(&noisy);
    assert_eq!(g1.max_lanes, g2.max_lanes);
    assert_eq!(g1.nodes.len(), g2.nodes.len());
    for (x, y) in g1.nodes.iter().zip(g2.nodes.iter()) {
        assert_eq!((x.commit_idx, x.lane, x.color_idx), (y.commit_idx, y.lane, y.color_idx));
        assert_eq!(x.edges, y.edges);
    }
}
