use snowball::graph::Graph;
use snowball::layout::SimNode;
use snowball::vec2d::Vec2d;

fn node(id: u64, x: i64, y: i64) -> SimNode {
    SimNode { id, pos: Vec2d { x, y }, velocity: Vec2d { x: 0, y: 0 } }
}

fn three() -> Graph {
    let mut g = Graph::new();
    g.add_node(node(1, 0, 0));
    g.add_node(node(2, 10, 0));
    g.add_node(node(3, 0, 10));
    g
}

#[test]
fn weights_are_symmetric() {
    let mut g = three();
    assert_eq!(g.set_weight(1, 2, 50), 0);
    assert_eq!(g.get_weight(1, 2), 50);
    assert_eq!(g.get_weight(2, 1), 50);
    assert_eq!(g.set_weight(2, 1, -7), 50);
    assert_eq!(g.get_weight(1, 2), -7);
    assert_eq!(g.get_weight(2, 1), -7);
}

#[test]
fn unset_weights_default_to_zero() {
    let mut g = three();
    assert_eq!(g.get_weight(1, 3), 0);
    assert_eq!(g.get_weight(3, 1), 0);
    assert_eq!(g.get_weight(1, 99), 0);
    assert_eq!(g.get_weight(99, 98), 0);
    assert_eq!(g.get_weight(2, 2), 0);
    g.set_weight(1, 2, 5);
    g.add_node(node(4, 3, 3));
    assert_eq!(g.get_weight(4, 1), 0);
    assert_eq!(g.get_weight(2, 4), 0);
}

#[test]
fn set_weight_returns_previous() {
    let mut g = three();
    assert_eq!(g.set_weight(1, 3, 100), 0);
    assert_eq!(g.set_weight(3, 1, 200), 100);
    // A node paired with itself keeps the default weight.
    assert_eq!(g.set_weight(2, 2, 9), 0);
    assert_eq!(g.get_weight(2, 2), 0);
    assert_eq!(g.set_weight(2, 2, 4), 0);
    assert_eq!(g.get_weight(2, 2), 0);
}

#[test]
fn add_node_replaces_same_key() {
    let mut g = three();
    g.set_weight(1, 2, 8);
    g.add_node(node(1, 77, 88));
    assert_eq!(g.node_count(), 3);
    assert_eq!(g.get_node(1).unwrap().pos, Vec2d { x: 77, y: 88 });
    assert_eq!(g.get_weight(1, 2), 8);
    let ids: Vec<u64> = g.nodes().iter().map(|n| n.id).collect();
    assert_eq!(ids, vec![1, 2, 3]);
}

#[test]
fn edges_list_every_other_node() {
    let mut g = three();
    g.set_weight(2, 3, 40);
    let e = g.edges(2);
    assert_eq!(e.len(), 2);
    assert_eq!(e[0].0.id, 1);
    assert_eq!(e[0].1, 0);
    assert_eq!(e[1].0.id, 3);
    assert_eq!(e[1].1, 40);
    assert_eq!(g.edges(99).len(), 3);
}

#[test]
fn remove_node_cascades() {
    let mut g = three();
    g.set_weight(1, 2, 5);
    g.set_weight(2, 3, 6);
    g.set_weight(2, 2, 7);
    let removed = g.remove_node(2).unwrap();
    assert_eq!(removed.id, 2);
    assert_eq!(g.node_count(), 2);
    assert!(g.get_node(2).is_none());
    assert_eq!(g.get_weight(1, 2), 0);
    assert_eq!(g.get_weight(2, 1), 0);
    assert_eq!(g.get_weight(3, 2), 0);
    assert_eq!(g.get_weight(2, 2), 0);
    for j in [1, 3] {
        assert!(g.edges(j).iter().all(|(n, _)| n.id != 2));
    }
    assert!(g.remove_node(2).is_none());
    // Re-adding the key starts from the default weights.
    g.add_node(node(2, 1, 1));
    assert_eq!(g.get_weight(1, 2), 0);
    assert_eq!(g.get_weight(2, 3), 0);
}

#[test]
fn remove_missing_node_changes_nothing() {
    let mut g = three();
    g.set_weight(1, 3, 11);
    assert!(g.remove_node(50).is_none());
    assert_eq!(g.node_count(), 3);
    assert_eq!(g.get_weight(3, 1), 11);
}
