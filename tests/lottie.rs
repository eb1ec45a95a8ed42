use snowball::lottie::{
    Colour, Coords, Ellipse, File, Fill, Keyframe, Layer, Line, Prop, Rectangle, Segment, Shape,
    Stroke, WriteJson,
};

fn json<T: WriteJson>(v: &T) -> String {
    let mut s = String::new();
    v.write_json(&mut s);
    s
}

fn keys<T>(items: Vec<(u64, T)>) -> Prop<T> {
    Prop::Animated(items.into_iter().map(|(time, value)| Keyframe { time, value }).collect())
}

#[test]
fn entire_file() {
    let file = File {
        frame_rate: 60,
        width: 512,
        height: 512,
        length: 120,
        layers: vec![
            Layer {
                start: 0,
                end: 60,
                shapes: vec![
                    Shape::Line(Line {
                        segment: Prop::Static(Segment(Coords(128, 256), Coords(384, 256))),
                    }),
                    Shape::Stroke(Stroke {
                        colour: Prop::Static(Colour(0, 0, 0)),
                        opacity: Prop::Static(100),
                        width: Prop::Static(1),
                    }),
                ],
            },
            Layer {
                start: 0,
                end: 120,
                shapes: vec![
                    Shape::Line(Line {
                        segment: keys(vec![
                            (0, Segment(Coords(0, 0), Coords(512, 512))),
                            (30, Segment(Coords(512, 0), Coords(0, 512))),
                            (60, Segment(Coords(512, 512), Coords(0, 0))),
                            (90, Segment(Coords(0, 512), Coords(512, 0))),
                            (120, Segment(Coords(0, 0), Coords(512, 512))),
                        ]),
                    }),
                    Shape::Stroke(Stroke {
                        colour: Prop::Static(Colour(255, 255, 0)),
                        opacity: Prop::Static(100),
                        width: Prop::Static(16),
                    }),
                ],
            },
            Layer {
                start: 30,
                end: 60,
                shapes: vec![
                    Shape::Ellipse(Ellipse {
                        center: keys(vec![(30, Coords(64, 64)), (60, Coords(448, 64))]),
                        size: Prop::Static(Coords(64, 64)),
                    }),
                    Shape::Stroke(Stroke {
                        colour: Prop::Static(Colour(0, 0, 255)),
                        opacity: Prop::Static(100),
                        width: Prop::Static(8),
                    }),
                    Shape::Fill(Fill {
                        colour: Prop::Static(Colour(0, 255, 0)),
                        opacity: Prop::Static(50),
                    }),
                ],
            },
            Layer {
                start: 90,
                end: 120,
                shapes: vec![
                    Shape::Ellipse(Ellipse {
                        center: keys(vec![(90, Coords(448, 448)), (120, Coords(64, 448))]),
                        size: Prop::Static(Coords(64, 64)),
                    }),
                    Shape::Stroke(Stroke {
                        colour: Prop::Static(Colour(0, 255, 0)),
                        opacity: Prop::Static(100),
                        width: Prop::Static(8),
                    }),
                    Shape::Fill(Fill {
                        colour: Prop::Static(Colour(0, 0, 255)),
                        opacity: Prop::Static(50),
                    }),
                ],
            },
            Layer {
                start: 0,
                end: 100,
                shapes: vec![
                    Shape::Ellipse(Ellipse {
                        center: Prop::Static(Coords(256, 256)),
                        size: keys(vec![(0, Coords(0, 0)), (100, Coords(362, 362))]),
                    }),
                    Shape::Fill(Fill {
                        colour: keys(vec![(0, Colour(0, 0, 0)), (100, Colour(255, 255, 255))]),
                        opacity: keys(vec![(0, 0), (100, 100)]),
                    }),
                ],
            },
            Layer {
                start: 0,
                end: 120,
                shapes: vec![
                    Shape::Rectangle(Rectangle {
                        center: Prop::Static(Coords(256, 256)),
                        size: Prop::Static(Coords(512, 512)),
                        roundness: Prop::Static(0),
                    }),
                    Shape::Fill(Fill {
                        colour: Prop::Static(Colour(255, 0, 0)),
                        opacity: Prop::Static(100),
                    }),
                ],
            },
        ],
    };
    assert_eq!(
        file.as_json(),
        r#"{"fr":60,"ip":0,"op":120,"w":512,"h":512,"layers":[{"ip":0,"op":60,"st":0,"ks":{},"ty":4,"shapes":[{"ty":"sh","ks":{"a":0,"k":{"c":false,"v":[[128,256],[384,256]],"i":[[0,0],[0,0]],"o":[[0,0],[0,0]]}}},{"ty":"st","o":{"a":0,"k":100},"c":{"a":0,"k":[0,0,0]},"w":{"a":0,"k":1}}]},{"ip":0,"op":120,"st":0,"ks":{},"ty":4,"shapes":[{"ty":"sh","ks":{"a":1,"k":[{"t":0,"i":{"x":1,"y":1},"o":{"x":0,"y":0},"s":[{"c":false,"v":[[0,0],[512,512]],"i":[[0,0],[0,0]],"o":[[0,0],[0,0]]}]},{"t":30,"i":{"x":1,"y":1},"o":{"x":0,"y":0},"s":[{"c":false,"v":[[512,0],[0,512]],"i":[[0,0],[0,0]],"o":[[0,0],[0,0]]}]},{"t":60,"i":{"x":1,"y":1},"o":{"x":0,"y":0},"s":[{"c":false,"v":[[512,512],[0,0]],"i":[[0,0],[0,0]],"o":[[0,0],[0,0]]}]},{"t":90,"i":{"x":1,"y":1},"o":{"x":0,"y":0},"s":[{"c":false,"v":[[0,512],[512,0]],"i":[[0,0],[0,0]],"o":[[0,0],[0,0]]}]},{"t":120,"i":{"x":1,"y":1},"o":{"x":0,"y":0},"s":[{"c":false,"v":[[0,0],[512,512]],"i":[[0,0],[0,0]],"o":[[0,0],[0,0]]}]}]}},{"ty":"st","o":{"a":0,"k":100},"c":{"a":0,"k":[1,1,0]},"w":{"a":0,"k":16}}]},{"ip":30,"op":60,"st":0,"ks":{},"ty":4,"shapes":[{"ty":"el","p":{"a":1,"k":[{"t":30,"i":{"x":1,"y":1},"o":{"x":0,"y":0},"s":[64,64]},{"t":60,"i":{"x":1,"y":1},"o":{"x":0,"y":0},"s":[448,64]}]},"s":{"a":0,"k":[64,64]}},{"ty":"st","o":{"a":0,"k":100},"c":{"a":0,"k":[0,0,1]},"w":{"a":0,"k":8}},{"ty":"fl","o":{"a":0,"k":50},"c":{"a":0,"k":[0,1,0]}}]},{"ip":90,"op":120,"st":0,"ks":{},"ty":4,"shapes":[{"ty":"el","p":{"a":1,"k":[{"t":90,"i":{"x":1,"y":1},"o":{"x":0,"y":0},"s":[448,448]},{"t":120,"i":{"x":1,"y":1},"o":{"x":0,"y":0},"s":[64,448]}]},"s":{"a":0,"k":[64,64]}},{"ty":"st","o":{"a":0,"k":100},"c":{"a":0,"k":[0,1,0]},"w":{"a":0,"k":8}},{"ty":"fl","o":{"a":0,"k":50},"c":{"a":0,"k":[0,0,1]}}]},{"ip":0,"op":100,"st":0,"ks":{},"ty":4,"shapes":[{"ty":"el","p":{"a":0,"k":[256,256]},"s":{"a":1,"k":[{"t":0,"i":{"x":1,"y":1},"o":{"x":0,"y":0},"s":[0,0]},{"t":100,"i":{"x":1,"y":1},"o":{"x":0,"y":0},"s":[362,362]}]}},{"ty":"fl","o":{"a":1,"k":[{"t":0,"i":{"x":1,"y":1},"o":{"x":0,"y":0},"s":[0]},{"t":100,"i":{"x":1,"y":1},"o":{"x":0,"y":0},"s":[100]}]},"c":{"a":1,"k":[{"t":0,"i":{"x":1,"y":1},"o":{"x":0,"y":0},"s":[0,0,0]},{"t":100,"i":{"x":1,"y":1},"o":{"x":0,"y":0},"s":[1,1,1]}]}}]},{"ip":0,"op":120,"st":0,"ks":{},"ty":4,"shapes":[{"ty":"rc","p":{"a":0,"k":[256,256]},"s":{"a":0,"k":[512,512]},"r":{"a":0,"k":0}},{"ty":"fl","o":{"a":0,"k":100},"c":{"a":0,"k":[1,0,0]}}]}]}"#
    );
}

#[test]
fn numbers_in_decimal() {
    assert_eq!(json(&0u8), "0");
    assert_eq!(json(&255u8), "255");
    assert_eq!(json(&1000u32), "1000");
    assert_eq!(json(&u64::MAX), "18446744073709551615");
    assert_eq!(json(&Coords(7, 40)), "[7,40]");
    assert_eq!(json(&Vec::<u32>::new()), "");
    assert_eq!(json(&vec![1u32, 22, 333]), "1,22,333");
}

#[test]
fn colour_intensities() {
    assert_eq!(json(&Colour(0, 255, 128)), "[0,1,0.502]");
    assert_eq!(json(&Colour(51, 102, 1)), "[0.2,0.4,0.004]");
    assert_eq!(json(&Colour(181, 137, 0)), "[0.71,0.537,0]");
}

#[test]
fn keyframe_values_become_arrays() {
    assert_eq!(
        json(&Keyframe { time: 5, value: 42u8 }),
        r#"{"t":5,"i":{"x":1,"y":1},"o":{"x":0,"y":0},"s":[42]}"#
    );
    assert_eq!(
        json(&Keyframe { time: 6, value: Coords(1, 2) }),
        r#"{"t":6,"i":{"x":1,"y":1},"o":{"x":0,"y":0},"s":[1,2]}"#
    );
    assert!(Coords(1, 2).json_is_array());
    assert!(!3u32.json_is_array());
    assert!(vec![Coords(1, 2)].json_is_array());
    assert!(!Vec::<Coords>::new().json_is_array());
}
