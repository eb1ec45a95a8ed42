use snowball::fixed::{isqrt, SCALE};
use snowball::lottie::{Prop, Shape};
use snowball::system::System;
use snowball::vec2d::Vec2d;
use snowball::test1;

fn positions(s: &System) -> Vec<(u64, Vec2d, Vec2d)> {
    s.graph().nodes().iter().map(|n| (n.id, n.pos, n.velocity)).collect()
}

#[test]
fn new_nodes_start_near_the_centre() {
    let mut s = System::with_seed(3);
    for id in 0..20 {
        assert_eq!(s.add_node(id, [1, 1, 1]), id);
        let n = *s.graph().get_node(id).unwrap();
        let dx = n.pos.x - 500 * SCALE;
        let dy = n.pos.y - 500 * SCALE;
        assert_eq!(dx % 5, 0);
        assert_eq!(dy % 5, 0);
        let (x, y) = (dx / 5, dy / 5);
        assert!(-SCALE <= x && x < SCALE);
        assert_eq!(y as u64, isqrt((SCALE * SCALE - x * x) as u128));
        assert_eq!(n.velocity, Vec2d { x: 0, y: 0 });
    }
    // Not every draw lands on the same point.
    let first = s.graph().get_node(0).unwrap().pos;
    assert!((1..20).any(|id| s.graph().get_node(id).unwrap().pos != first));
}

#[test]
fn add_node_towards_places_exactly() {
    let mut s = System::new();
    s.add_node_towards(4, [0, 0, 0], Vec2d { x: 0, y: SCALE });
    let n = s.graph().get_node(4).unwrap();
    assert_eq!(n.pos, Vec2d { x: 500 * SCALE, y: 505 * SCALE });
}

#[test]
fn same_seed_same_trajectories() {
    let run = |seed: u64| {
        let mut s = System::with_seed(seed);
        for id in 0..4 {
            s.add_node(id, [9, 9, 9]);
        }
        s.many_steps(30);
        s.set_weight(0, 2, 120);
        s.many_steps(30);
        positions(&s)
    };
    assert_eq!(run(11), run(11));
    assert_ne!(run(11), run(12));
}

#[test]
fn steps_record_every_tick() {
    let mut s = System::new();
    s.add_node(1, [200, 0, 0]);
    s.add_node(2, [0, 200, 0]);
    s.many_steps(10);
    assert_eq!(s.steps(), 10);
    assert_eq!(s.history().step(), 10);
    s.add_node(3, [0, 0, 200]);
    s.many_steps(5);
    let removed = s.remove_node(1).unwrap();
    assert_eq!(removed.id, 1);
    assert!(s.remove_node(1).is_none());
    s.many_steps(5);
    let file = s.render();
    assert_eq!(file.length, 20);
    assert_eq!(file.layers.len(), 3);
    assert_eq!((file.layers[0].start, file.layers[0].end), (0, 15));
    let mut spans: Vec<(u64, u64)> = file.layers[1..].iter().map(|l| (l.start, l.end)).collect();
    spans.sort();
    assert_eq!(spans, vec![(0, 20), (10, 20)]);
    for layer in &file.layers {
        match &layer.shapes[0] {
            Shape::Ellipse(e) => match &e.center {
                Prop::Animated(k) => {
                    assert_eq!(k[0].time, layer.start);
                    assert!(k.windows(2).all(|w| w[0].time < w[1].time));
                    assert!(k.last().unwrap().time < layer.end);
                }
                Prop::Static(_) => panic!("static centre"),
            },
            _ => panic!("not an ellipse"),
        }
    }
}

#[test]
fn demonstration_run() {
    let s = test1();
    assert_eq!(s.steps(), 2200);
    assert_eq!(s.graph().node_count(), 8);
    assert_eq!(s.graph().get_weight(7, 1), 5000);
    let file = s.render();
    assert_eq!(file.length, 2200);
    assert_eq!(file.layers.len(), 8);
    let mut spans: Vec<(u64, u64)> = file.layers.iter().map(|l| (l.start, l.end)).collect();
    spans.sort();
    assert_eq!(
        spans,
        vec![(0, 2200), (0, 2200), (0, 2200), (0, 2200), (0, 2200), (900, 2200), (1050, 2200), (1350, 2200)]
    );
}
