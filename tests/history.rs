use snowball::fixed::SCALE;
use snowball::history::{History, Record, RecorderError};
use snowball::lottie::{Colour, Coords, Prop, Shape};
use snowball::vec2d::Vec2d;

fn px(x: i64, y: i64) -> Vec2d {
    Vec2d { x: x * SCALE, y: y * SCALE }
}

fn keyframes(shape: &Shape) -> Vec<(u64, Coords)> {
    match shape {
        Shape::Ellipse(e) => match &e.center {
            Prop::Animated(k) => k.iter().map(|k| (k.time, k.value)).collect(),
            Prop::Static(_) => panic!("static centre"),
        },
        _ => panic!("not an ellipse"),
    }
}

#[test]
fn static_position_is_one_frame() {
    let mut r = Record { start: 0, colour: Colour(1, 2, 3), frames: Vec::new() };
    for _ in 0..7 {
        r.push_pos(px(40, 50));
    }
    assert_eq!(r.frames.len(), 1);
    assert_eq!(r.frames[0].length, 7);
    assert_eq!(r.frames[0].pos, px(40, 50));
}

#[test]
fn drift_inside_band_is_one_frame() {
    let mut r = Record { start: 3, colour: Colour(0, 0, 0), frames: Vec::new() };
    let base = px(100, 100);
    let offsets = [(0, 0), (SCALE - 1, 0), (-SCALE + 1, SCALE / 2), (SCALE / 3, SCALE - 1)];
    for (dx, dy) in offsets {
        r.push_pos(Vec2d { x: base.x + dx, y: base.y + dy });
    }
    assert_eq!(r.frames.len(), 1);
    assert_eq!(r.frames[0].length, 4);
    assert_eq!(r.frames[0].pos, base);
}

#[test]
fn band_edges_start_new_frames() {
    let base = px(100, 100);
    // One pixel further along an axis is still inside the band...
    let mut r = Record { start: 0, colour: Colour(0, 0, 0), frames: Vec::new() };
    r.push_pos(base);
    r.push_pos(Vec2d { x: base.x + SCALE, y: base.y });
    assert_eq!(r.frames.len(), 1);
    // ...one pixel back is not.
    let mut r = Record { start: 0, colour: Colour(0, 0, 0), frames: Vec::new() };
    r.push_pos(base);
    r.push_pos(Vec2d { x: base.x - SCALE, y: base.y });
    assert_eq!(r.frames.len(), 2);
    assert_eq!(r.frames[1].length, 1);
    let mut r = Record { start: 0, colour: Colour(0, 0, 0), frames: Vec::new() };
    r.push_pos(base);
    r.push_pos(Vec2d { x: base.x, y: base.y + SCALE + 1 });
    assert_eq!(r.frames.len(), 2);
}

#[test]
fn slow_drift_is_measured_from_the_frame_start() {
    let mut r = Record { start: 0, colour: Colour(0, 0, 0), frames: Vec::new() };
    for i in 0..3 {
        r.push_pos(Vec2d { x: i * (SCALE * 6 / 10), y: 0 });
    }
    assert_eq!(r.frames.len(), 2);
    assert_eq!(r.frames[0].length, 2);
    assert_eq!(r.frames[1].length, 1);
}

#[test]
fn unknown_node_errors() {
    let mut h = History::new();
    assert_eq!(h.set_position(9, px(1, 1)), Err(RecorderError::UnknownNode));
    assert_eq!(h.remove_node(9), Err(RecorderError::UnknownNode));
    h.add_node(9, [1, 2, 3]);
    assert_eq!(h.set_position(9, px(1, 1)), Ok(()));
    assert_eq!(h.remove_node(9), Ok(()));
    assert_eq!(h.set_position(9, px(1, 1)), Err(RecorderError::UnknownNode));
    assert_eq!(h.remove_node(9), Err(RecorderError::UnknownNode));
}

#[test]
fn record_lifecycle() {
    let mut h = History::new();
    h.add_node(7, [10, 20, 30]);
    let path = [px(0, 0), px(0, 0), px(5, 0), px(5, 0), px(9, 2)];
    for p in path {
        h.set_position(7, p).unwrap();
        h.next_step();
    }
    assert_eq!(h.step(), 5);
    h.remove_node(7).unwrap();
    let file = h.render();
    assert_eq!(file.length, 5);
    assert_eq!(file.layers.len(), 1);
    let layer = &file.layers[0];
    assert_eq!(layer.start, 0);
    assert_eq!(layer.end, 5);
    let k = keyframes(&layer.shapes[0]);
    assert_eq!(k, vec![(0, Coords(0, 0)), (2, Coords(5, 0)), (4, Coords(9, 2))]);
    match &layer.shapes[1] {
        Shape::Fill(f) => {
            assert!(matches!(f.colour, Prop::Static(Colour(10, 20, 30))));
            assert!(matches!(f.opacity, Prop::Static(100)));
        }
        _ => panic!("not a fill"),
    }
}

#[test]
fn render_puts_closed_records_first() {
    let mut h = History::new();
    h.add_node(1, [0, 0, 0]);
    h.set_position(1, px(3, 3)).unwrap();
    h.next_step();
    h.add_node(2, [0, 0, 0]);
    h.set_position(1, px(3, 3)).unwrap();
    h.set_position(2, px(-4, 7)).unwrap();
    h.next_step();
    h.remove_node(2).unwrap();
    let file = h.render();
    assert_eq!(file.layers.len(), 2);
    assert_eq!((file.layers[0].start, file.layers[0].end), (1, 2));
    assert_eq!(keyframes(&file.layers[0].shapes[0]), vec![(1, Coords(0, 7))]);
    assert_eq!((file.layers[1].start, file.layers[1].end), (0, 2));
    assert_eq!(keyframes(&file.layers[1].shapes[0]), vec![(0, Coords(3, 3))]);
}
