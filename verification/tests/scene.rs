use gloom_rs::scene::{DrawCall, SceneGraph, NO_GEOMETRY};
use gloom_rs::world::{build_scene, helicopter_parts, Geometry, HELICOPTER_COUNT};

fn summary(draws: &[DrawCall]) -> Vec<(usize, u32, i32, Vec<usize>)> {
    draws.iter().map(|d| (d.node, d.vao_id, d.index_count, d.chain.clone())).collect()
}

#[test]
fn nodes_and_links() {
    let mut g = SceneGraph::new();
    assert_eq!(g.len(), 0);
    let a = g.add_empty_node();
    let b = g.add_node(7, 36);
    assert_eq!((a, b), (0, 1));
    assert_eq!(g.node(a).index_count, NO_GEOMETRY);
    assert_eq!(g.node(a).vao_id, 0);
    assert_eq!((g.node(b).vao_id, g.node(b).index_count), (7, 36));
    g.add_child(a, b);
    g.add_child(a, b);
    assert_eq!(g.n_children(a), 2);
    assert_eq!(g.get_child(a, 1), b);
    assert_eq!(g.n_children(b), 0);
}

#[test]
fn single_leaf_draws_once() {
    let mut g = SceneGraph::new();
    let n = g.add_node(3, 12);
    let draws = g.draw_list(n);
    assert_eq!(summary(&draws), vec![(0, 3, 12, vec![0])]);
}

#[test]
fn empty_nodes_are_not_drawn_and_add_no_transform() {
    let mut g = SceneGraph::new();
    let root = g.add_empty_node();
    let group = g.add_empty_node();
    let x = g.add_node(1, 3);
    let y = g.add_node(2, 6);
    let z = g.add_node(5, 9);
    g.add_child(root, group);
    g.add_child(group, x);
    g.add_child(x, y);
    g.add_child(root, z);
    let draws = g.draw_list(root);
    assert_eq!(
        summary(&draws),
        vec![(2, 1, 3, vec![2]), (3, 2, 6, vec![2, 3]), (4, 5, 9, vec![4])]
    );
}

#[test]
fn shared_node_drawn_under_each_parent() {
    let mut g = SceneGraph::new();
    let root = g.add_node(1, 3);
    let left = g.add_node(2, 3);
    let right = g.add_node(3, 3);
    let shared = g.add_node(4, 3);
    g.add_child(root, left);
    g.add_child(root, right);
    g.add_child(left, shared);
    g.add_child(right, shared);
    let draws = g.draw_list(root);
    assert_eq!(
        summary(&draws),
        vec![
            (0, 1, 3, vec![0]),
            (1, 2, 3, vec![0, 1]),
            (3, 4, 3, vec![0, 1, 3]),
            (2, 3, 3, vec![0, 2]),
            (3, 4, 3, vec![0, 2, 3]),
        ]
    );
}

#[test]
fn helicopter_scene_shape_and_draws() {
    let geo = |vao_id: u32, index_count: i32| Geometry { vao_id, index_count };
    let (g, root, terrain) = build_scene(geo(10, 900), geo(20, 300), geo(21, 30), geo(22, 60), geo(23, 12), HELICOPTER_COUNT);
    assert_eq!((root, terrain), (0, 1));
    assert_eq!(g.len(), 2 + 4 * 5);
    assert_eq!(g.n_children(root), 1);
    assert_eq!(g.n_children(terrain), 5);
    for i in 0..5 {
        let body = g.get_child(terrain, i);
        assert_eq!(body, 2 + 4 * i);
        assert_eq!(g.n_children(body), 3);
        assert_eq!(g.node(g.get_child(body, 2)).vao_id, 23);
    }

    let draws = g.draw_list(root);
    assert_eq!(draws.len(), 1 + 4 * 5);
    let s = summary(&draws);
    assert_eq!(s[0], (1, 10, 900, vec![1]));
    assert_eq!(s[1], (2, 20, 300, vec![1, 2]));
    assert_eq!(s[2], (3, 21, 30, vec![1, 2, 3]));
    assert_eq!(s[3], (4, 22, 60, vec![1, 2, 4]));
    assert_eq!(s[4], (5, 23, 12, vec![1, 2, 5]));
    assert_eq!(s[20], (21, 23, 12, vec![1, 18, 21]));

    let parts = helicopter_parts(&g, terrain);
    assert_eq!(parts.len(), 5);
    assert_eq!((parts[0].body, parts[0].main_rotor, parts[0].tail_rotor), (2, 4, 5));
    assert_eq!((parts[4].body, parts[4].main_rotor, parts[4].tail_rotor), (18, 20, 21));
}
