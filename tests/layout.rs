use snowball::fixed::{isqrt, SCALE};
use snowball::graph::Graph;
use snowball::layout::{
    max_distance, move_node, node_acceleration, spring_pull, step, SimNode, ACCEL_LIMIT,
    VELOCITY_LIMIT,
};
use snowball::vec2d::{Vec2d, POSITION_LIMIT};

fn node(id: u64, x: i64, y: i64) -> SimNode {
    SimNode { id, pos: Vec2d { x, y }, velocity: Vec2d { x: 0, y: 0 } }
}

fn distance(g: &Graph, a: u64, b: u64) -> i64 {
    let p = g.get_node(a).unwrap().pos;
    let q = g.get_node(b).unwrap().pos;
    p.distance(q) as i64
}

#[test]
fn integer_square_root() {
    assert_eq!(isqrt(0), 0);
    assert_eq!(isqrt(15), 3);
    assert_eq!(isqrt(16), 4);
    assert_eq!(isqrt(u128::MAX), u64::MAX);
}

#[test]
fn vector_length_and_direction() {
    let v = Vec2d::new(3 * SCALE, 4 * SCALE);
    assert_eq!(v.length(), 5 * SCALE as u64);
    assert_eq!(v.as_unit(), Vec2d { x: 39321, y: 52428 });
    assert_eq!(Vec2d::new(0, 0).as_unit(), Vec2d { x: 0, y: 0 });
    assert_eq!(Vec2d::new(0, 0).distance(Vec2d::new(-6, 8)), 10);
    assert_eq!(Vec2d::on_half_circle(0), Vec2d { x: 0, y: SCALE });
    assert_eq!(Vec2d::on_half_circle(-SCALE), Vec2d { x: -SCALE, y: 0 });
}

#[test]
fn natural_spring_length() {
    assert_eq!(max_distance(0), 0);
    assert_eq!(max_distance(1), 9830400);
    assert_eq!(max_distance(2), 13902285);
    assert_eq!(max_distance(4), 19660800);
    assert_eq!(max_distance(9), 29491200);
}

#[test]
fn pull_of_one_spring() {
    let md = max_distance(2);
    let a = node(1, 0, 0);
    let b = node(2, 300 * SCALE, 0);
    assert_eq!(spring_pull(&a, &b, 0, md), (57585, 0));
    assert_eq!(spring_pull(&b, &a, 0, md), (-57585, 0));
    let c = node(3, 3 * SCALE, 4 * SCALE);
    assert_eq!(spring_pull(&a, &c, 100, md), (-42125, -56167));
    // Coincident nodes have no direction and pull nothing.
    assert_eq!(spring_pull(&a, &a, 0, md), (0, 0));
}

#[test]
fn acceleration_sums_pulls() {
    let mut g = Graph::new();
    g.add_node(node(1, 0, 0));
    g.add_node(node(2, 300 * SCALE, 0));
    let a = *g.get_node(1).unwrap();
    assert_eq!(node_acceleration(&g, &a), (57585, 0));
}

#[test]
fn integration_damps_velocity() {
    let n = SimNode { id: 1, pos: Vec2d { x: 100, y: -100 }, velocity: Vec2d { x: 10, y: -21 } };
    let m = move_node(n, (0, 0));
    assert_eq!(m.velocity, Vec2d { x: 9, y: -18 });
    assert_eq!(m.pos, Vec2d { x: 109, y: -118 });
    let m = move_node(n, (90, 1));
    assert_eq!(m.velocity, Vec2d { x: 90, y: -18 });
    assert_eq!(m.pos, Vec2d { x: 190, y: -118 });
}

#[test]
fn velocity_never_grows_without_force() {
    let mut n = SimNode { id: 1, pos: Vec2d { x: 0, y: 0 }, velocity: Vec2d { x: 1000, y: -777 } };
    for _ in 0..100 {
        let m = move_node(n, (0, 0));
        assert!(m.velocity.x.abs() <= n.velocity.x.abs());
        assert!(m.velocity.y.abs() <= n.velocity.y.abs());
        n = m;
    }
    assert_eq!(n.velocity, Vec2d { x: 0, y: 0 });
}

#[test]
fn step_returns_new_positions_in_order() {
    let mut g = Graph::new();
    g.add_node(node(5, 0, 0));
    g.add_node(node(6, 300 * SCALE, 0));
    let moves = step(&mut g);
    assert_eq!(moves.len(), 2);
    assert_eq!(moves[0].0, 5);
    assert_eq!(moves[1].0, 6);
    assert_eq!(moves[0].1, g.get_node(5).unwrap().pos);
    assert_eq!(moves[0].1, Vec2d { x: 51826, y: 0 });
    assert_eq!(moves[1].1, Vec2d { x: 300 * SCALE - 51826, y: 0 });
}

#[test]
fn two_nodes_converge_to_spring_length() {
    let mut g = Graph::new();
    g.add_node(node(1, 100 * SCALE, 500 * SCALE));
    g.add_node(node(2, 900 * SCALE, 500 * SCALE));
    let target = max_distance(2);
    let mut last = distance(&g, 1, 2);
    assert_eq!(last, 800 * SCALE);
    // While the nodes approach, the distance falls strictly every tick.
    for _ in 0..20 {
        step(&mut g);
        let d = distance(&g, 1, 2);
        assert!(d < last);
        last = d;
    }
    for _ in 0..280 {
        step(&mut g);
        // Equal and opposite forces: from rest the two move in mirror image.
        let a = g.get_node(1).unwrap().velocity;
        let b = g.get_node(2).unwrap().velocity;
        assert_eq!((a.x, a.y), (-b.x, -b.y));
    }
    let d = distance(&g, 1, 2);
    assert!((d - target).abs() < SCALE / 10);
    assert!(g.get_node(1).unwrap().velocity.x.abs() < SCALE / 100);
    assert!(g.get_node(2).unwrap().velocity.x.abs() < SCALE / 100);
}

#[test]
fn empty_graph_tick() {
    let mut g = Graph::new();
    assert!(step(&mut g).is_empty());
    assert_eq!(g.node_count(), 0);
}

#[test]
fn motion_is_held_inside_the_bounds() {
    let n = SimNode {
        id: 1,
        pos: Vec2d { x: POSITION_LIMIT - 5, y: -POSITION_LIMIT + 5 },
        velocity: Vec2d { x: 0, y: 0 },
    };
    let m = move_node(n, (ACCEL_LIMIT, -ACCEL_LIMIT));
    assert_eq!(m.velocity, Vec2d { x: VELOCITY_LIMIT, y: -VELOCITY_LIMIT });
    assert_eq!(m.pos, Vec2d { x: POSITION_LIMIT, y: -POSITION_LIMIT });
}
