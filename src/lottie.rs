//! A neutral scene description in the shape of a Lottie animation: layers
//! with a start and end frame, each holding shapes whose properties are
//! either static or keyframed.
use vstd::prelude::*;

use crate::text::{decimal, digit, digit_char, push_char, push_decimal, push_str};

verus! {

/// Integer coordinates, in pixels.
#[derive(Clone, Copy, Debug, PartialEq, Eq, Structural)]
pub struct Coords(pub u32, pub u32);

/// A colour as red, green and blue intensities from 0 to 255.
#[derive(Clone, Copy, Debug, PartialEq, Eq, Structural)]
pub struct Colour(pub u8, pub u8, pub u8);

/// A keyframe of an animated property.
#[derive(Debug, PartialEq, Eq)]
pub struct Keyframe<T> {
    /// The frame at which this keyframe occurs.
    pub time: u64,
    /// The value of the property at this keyframe.
    pub value: T,
}

/// A property that is either constant over time or animated by keyframes.
#[derive(Debug)]
pub enum Prop<T> {
    Static(T),
    Animated(Vec<Keyframe<T>>),
}

/// A rectangle, given by its center, size and corner roundness.
#[derive(Debug)]
pub struct Rectangle {
    pub center: Prop<Coords>,
    pub size: Prop<Coords>,
    pub roundness: Prop<u32>,
}

/// An ellipse, given by its center and size.
#[derive(Debug)]
pub struct Ellipse {
    pub center: Prop<Coords>,
    pub size: Prop<Coords>,
}

/// A straight path between two points.
#[derive(Clone, Copy, Debug, PartialEq, Eq, Structural)]
pub struct Segment(pub Coords, pub Coords);

/// A line shape, given by its segment.
#[derive(Debug)]
pub struct Line {
    pub segment: Prop<Segment>,
}

/// A solid fill applied to the shapes of a layer.
#[derive(Debug)]
pub struct Fill {
    pub colour: Prop<Colour>,
    /// Opacity as a percentage, 0 to 100.
    pub opacity: Prop<u8>,
}

/// A solid stroke applied to the shapes of a layer.
#[derive(Debug)]
pub struct Stroke {
    pub colour: Prop<Colour>,
    /// Opacity as a percentage, 0 to 100.
    pub opacity: Prop<u8>,
    /// Width in pixels.
    pub width: Prop<u32>,
}

/// A shape or a style of a layer.
#[derive(Debug)]
pub enum Shape {
    Rectangle(Rectangle),
    Ellipse(Ellipse),
    Line(Line),
    Fill(Fill),
    Stroke(Stroke),
}

/// A layer, visible from frame `start` up to frame `end`.
#[derive(Debug)]
pub struct Layer {
    pub start: u64,
    pub end: u64,
    pub shapes: Vec<Shape>,
}

/// A whole animation.
#[derive(Debug)]
pub struct File {
    pub frame_rate: u32,
    pub width: u32,
    pub height: u32,
    pub length: u64,
    /// The layers, top to bottom.
    pub layers: Vec<Layer>,
}

/// Whether a JSON text is an array.
pub open spec fn is_array(j: Seq<char>) -> bool {
    j.len() > 0 && j[0] == '['
}

/// An element of a Lottie file that can be written as JSON.
pub trait WriteJson {
    /// The JSON text of this element.
    spec fn json(&self) -> Seq<char>;

    /// Whether the JSON text of this element is an array.
    fn json_is_array(&self) -> (r: bool)
        ensures
            r == is_array(self.json()),
    ;

    /// Appends the JSON text of this element to `s`.
    fn write_json(&self, s: &mut String)
        ensures
            final(s)@ == old(s)@ + self.json(),
    ;
}

impl WriteJson for u8 {
    open spec fn json(&self) -> Seq<char> {
        decimal(*self as nat)
    }

    fn json_is_array(&self) -> (r: bool) {
        proof {
            lemma_decimal_first(*self as nat);
        }
        false
    }

    fn write_json(&self, s: &mut String) {
        push_decimal(s, *self as u64);
    }
}

impl WriteJson for u32 {
    open spec fn json(&self) -> Seq<char> {
        decimal(*self as nat)
    }

    fn json_is_array(&self) -> (r: bool) {
        proof {
            lemma_decimal_first(*self as nat);
        }
        false
    }

    fn write_json(&self, s: &mut String) {
        push_decimal(s, *self as u64);
    }
}

impl WriteJson for u64 {
    open spec fn json(&self) -> Seq<char> {
        decimal(*self as nat)
    }

    fn json_is_array(&self) -> (r: bool) {
        proof {
            lemma_decimal_first(*self as nat);
        }
        false
    }

    fn write_json(&self, s: &mut String) {
        push_decimal(s, *self);
    }
}

/// A decimal never starts with a bracket.
proof fn lemma_decimal_first(n: nat)
    ensures
        decimal(n).len() > 0,
        decimal(n)[0] != '[',
    decreases n,
{
    if n >= 10 {
        lemma_decimal_first(n / 10);
    }
}

impl WriteJson for Coords {
    open spec fn json(&self) -> Seq<char> {
        seq!['['] + decimal(self.0 as nat) + seq![','] + decimal(self.1 as nat) + seq![']']
    }

    fn json_is_array(&self) -> (r: bool) {
        true
    }

    fn write_json(&self, s: &mut String) {
        push_char(s, '[');
        push_decimal(s, self.0 as u64);
        push_char(s, ',');
        push_decimal(s, self.1 as u64);
        push_char(s, ']');
        assert(s@ =~= old(s)@ + self.json());
    }
}

/// A colour intensity as a fraction of 255, in thousandths, rounded half up.
pub open spec fn thousandths(c: u8) -> nat {
    ((c * 2000 + 255) / 510) as nat
}

/// A colour intensity as a decimal fraction of 255 with at most three
/// decimals and no trailing zeros: `0`, `0.5`, `0.502`, `1`.
pub open spec fn intensity(c: u8) -> Seq<char> {
    let m = thousandths(c);
    let whole = decimal(m / 1000);
    let f = m % 1000;
    if f == 0 {
        whole
    } else if f % 100 == 0 {
        whole + seq!['.', digit_char(f / 100)]
    } else if f % 10 == 0 {
        whole + seq!['.', digit_char(f / 100), digit_char(f / 10 % 10)]
    } else {
        whole + seq!['.', digit_char(f / 100), digit_char(f / 10 % 10), digit_char(f % 10)]
    }
}

/// Appends a colour intensity as a decimal fraction of 255.
pub fn push_intensity(s: &mut String, c: u8)
    ensures
        final(s)@ == old(s)@ + intensity(c),
{
    let m: u64 = (c as u64 * 2000 + 255) / 510;
    push_decimal(s, m / 1000);
    let f = m % 1000;
    if f != 0 {
        push_char(s, '.');
        push_char(s, digit(f / 100));
        if f % 100 != 0 {
            push_char(s, digit(f / 10 % 10));
            if f % 10 != 0 {
                push_char(s, digit(f % 10));
            }
        }
    }
    assert(s@ =~= old(s)@ + intensity(c));
}

impl WriteJson for Colour {
    open spec fn json(&self) -> Seq<char> {
        seq!['['] + intensity(self.0) + seq![','] + intensity(self.1) + seq![','] + intensity(
            self.2,
        ) + seq![']']
    }

    fn json_is_array(&self) -> (r: bool) {
        true
    }

    fn write_json(&self, s: &mut String) {
        push_char(s, '[');
        push_intensity(s, self.0);
        push_char(s, ',');
        push_intensity(s, self.1);
        push_char(s, ',');
        push_intensity(s, self.2);
        push_char(s, ']');
        assert(s@ =~= old(s)@ + self.json());
    }
}

/// The JSON texts of `items`, separated by commas.
#[verifier::opaque]
pub open spec fn joined<T: WriteJson>(items: Seq<T>) -> Seq<char>
    decreases items.len(),
{
    if items.len() == 0 {
        Seq::empty()
    } else if items.len() == 1 {
        items[0].json()
    } else {
        joined(items.drop_last()) + seq![','] + items.last().json()
    }
}

/// A joined list begins with the text of its first item, followed by nothing
/// or by a comma.
proof fn lemma_joined_head<T: WriteJson>(items: Seq<T>) -> (tail: Seq<char>)
    requires
        items.len() > 0,
    ensures
        joined(items) == items[0].json() + tail,
        tail.len() == 0 || tail[0] == ',',
    decreases items.len(),
{
    reveal(joined);
    if items.len() == 1 {
        assert(joined(items) =~= items[0].json() + Seq::<char>::empty());
        Seq::empty()
    } else {
        let d = items.drop_last();
        let t = lemma_joined_head(d);
        let tail = t + seq![','] + items.last().json();
        assert(joined(items) =~= items[0].json() + tail);
        tail
    }
}

impl<T: WriteJson> WriteJson for Vec<T> {
    open spec fn json(&self) -> Seq<char> {
        joined(self@)
    }

    fn json_is_array(&self) -> (r: bool) {
        proof {
            reveal(joined);
        }
        if self.len() == 0 {
            false
        } else {
            proof {
                let tail = lemma_joined_head(self@);
                let h = self@[0].json();
                if h.len() > 0 {
                    assert(joined(self@)[0] == h[0]);
                } else {
                    assert(joined(self@) =~= tail);
                }
            }
            self[0].json_is_array()
        }
    }

    fn write_json(&self, s: &mut String) {
        proof {
            reveal(joined);
        }
        let mut i: usize = 0;
        while i < self.len()
            invariant
                i <= self@.len(),
                s@ == old(s)@ + joined(self@.take(i as int)),
            decreases self@.len() - i,
        {
            if i > 0 {
                push_char(s, ',');
            }
            self[i].write_json(s);
            i = i + 1;
            proof {
                reveal(joined);
                let t = self@.take(i as int);
                assert(t.drop_last() =~= self@.take(i - 1));
                if i == 1 {
                    assert(self@.take(0) =~= Seq::<T>::empty());
                }
                assert(s@ =~= old(s)@ + joined(t));
            }
        }
        assert(self@.take(i as int) =~= self@);
    }
}

impl WriteJson for Segment {
    open spec fn json(&self) -> Seq<char> {
        seq!['{'] + r#""c":false,"v":["#@ + self.0.json() + seq![','] + self.1.json()
            + r#"],"i":[[0,0],[0,0]],"o":[[0,0],[0,0]]}"#@
    }

    fn json_is_array(&self) -> (r: bool) {
        false
    }

    fn write_json(&self, s: &mut String) {
        push_char(s, '{');
        push_str(s, r#""c":false,"v":["#);
        self.0.write_json(s);
        push_char(s, ',');
        self.1.write_json(s);
        push_str(s, r#"],"i":[[0,0],[0,0]],"o":[[0,0],[0,0]]}"#);
        assert(s@ =~= old(s)@ + self.json());
    }
}

/// A keyframe value as an array: an array as it is, anything else wrapped in
/// a one-element array.
pub open spec fn wrapped(j: Seq<char>) -> Seq<char> {
    if is_array(j) {
        j
    } else {
        seq!['['] + j + seq![']']
    }
}

impl<T: WriteJson> WriteJson for Keyframe<T> {
    open spec fn json(&self) -> Seq<char> {
        seq!['{'] + r#""t":"#@ + decimal(self.time as nat)
            + r#","i":{"x":1,"y":1},"o":{"x":0,"y":0},"s":"#@ + wrapped(self.value.json())
            + seq!['}']
    }

    fn json_is_array(&self) -> (r: bool) {
        false
    }

    fn write_json(&self, s: &mut String) {
        push_char(s, '{');
        push_str(s, r#""t":"#);
        push_decimal(s, self.time);
        push_str(s, r#","i":{"x":1,"y":1},"o":{"x":0,"y":0},"s":"#);
        if self.value.json_is_array() {
            self.value.write_json(s);
        } else {
            push_char(s, '[');
            self.value.write_json(s);
            push_char(s, ']');
        }
        push_char(s, '}');
        assert(s@ =~= old(s)@ + self.json());
    }
}

impl<T: WriteJson> WriteJson for Prop<T> {
    open spec fn json(&self) -> Seq<char> {
        match self {
            Prop::Static(v) => seq!['{'] + r#""a":0,"k":"#@ + v.json() + seq!['}'],
            Prop::Animated(k) => seq!['{'] + r#""a":1,"k":["#@ + joined(k@) + seq![']', '}'],
        }
    }

    fn json_is_array(&self) -> (r: bool) {
        false
    }

    fn write_json(&self, s: &mut String) {
        match self {
            Prop::Static(v) => {
                push_char(s, '{');
                push_str(s, r#""a":0,"k":"#);
                v.write_json(s);
                push_char(s, '}');
            },
            Prop::Animated(k) => {
                push_char(s, '{');
                push_str(s, r#""a":1,"k":["#);
                k.write_json(s);
                push_char(s, ']');
                push_char(s, '}');
            },
        }
        assert(s@ =~= old(s)@ + self.json());
    }
}

impl WriteJson for Rectangle {
    open spec fn json(&self) -> Seq<char> {
        seq!['{'] + r#""ty":"rc","p":"#@ + self.center.json() + r#","s":"#@ + self.size.json()
            + r#","r":"#@ + self.roundness.json() + seq!['}']
    }

    fn json_is_array(&self) -> (r: bool) {
        false
    }

    fn write_json(&self, s: &mut String) {
        push_char(s, '{');
        push_str(s, r#""ty":"rc","p":"#);
        self.center.write_json(s);
        push_str(s, r#","s":"#);
        self.size.write_json(s);
        push_str(s, r#","r":"#);
        self.roundness.write_json(s);
        push_char(s, '}');
        assert(s@ =~= old(s)@ + self.json());
    }
}

impl WriteJson for Ellipse {
    open spec fn json(&self) -> Seq<char> {
        seq!['{'] + r#""ty":"el","p":"#@ + self.center.json() + r#","s":"#@ + self.size.json()
            + seq!['}']
    }

    fn json_is_array(&self) -> (r: bool) {
        false
    }

    fn write_json(&self, s: &mut String) {
        push_char(s, '{');
        push_str(s, r#""ty":"el","p":"#);
        self.center.write_json(s);
        push_str(s, r#","s":"#);
        self.size.write_json(s);
        push_char(s, '}');
        assert(s@ =~= old(s)@ + self.json());
    }
}

impl WriteJson for Line {
    open spec fn json(&self) -> Seq<char> {
        seq!['{'] + r#""ty":"sh","ks":"#@ + self.segment.json() + seq!['}']
    }

    fn json_is_array(&self) -> (r: bool) {
        false
    }

    fn write_json(&self, s: &mut String) {
        push_char(s, '{');
        push_str(s, r#""ty":"sh","ks":"#);
        self.segment.write_json(s);
        push_char(s, '}');
        assert(s@ =~= old(s)@ + self.json());
    }
}

impl WriteJson for Fill {
    open spec fn json(&self) -> Seq<char> {
        seq!['{'] + r#""ty":"fl","o":"#@ + self.opacity.json() + r#","c":"#@
            + self.colour.json() + seq!['}']
    }

    fn json_is_array(&self) -> (r: bool) {
        false
    }

    fn write_json(&self, s: &mut String) {
        push_char(s, '{');
        push_str(s, r#""ty":"fl","o":"#);
        self.opacity.write_json(s);
        push_str(s, r#","c":"#);
        self.colour.write_json(s);
        push_char(s, '}');
        assert(s@ =~= old(s)@ + self.json());
    }
}

impl WriteJson for Stroke {
    open spec fn json(&self) -> Seq<char> {
        seq!['{'] + r#""ty":"st","o":"#@ + self.opacity.json() + r#","c":"#@
            + self.colour.json() + r#","w":"#@ + self.width.json() + seq!['}']
    }

    fn json_is_array(&self) -> (r: bool) {
        false
    }

    fn write_json(&self, s: &mut String) {
        push_char(s, '{');
        push_str(s, r#""ty":"st","o":"#);
        self.opacity.write_json(s);
        push_str(s, r#","c":"#);
        self.colour.write_json(s);
        push_str(s, r#","w":"#);
        self.width.write_json(s);
        push_char(s, '}');
        assert(s@ =~= old(s)@ + self.json());
    }
}

impl WriteJson for Shape {
    open spec fn json(&self) -> Seq<char> {
        match self {
            Shape::Rectangle(r) => r.json(),
            Shape::Ellipse(e) => e.json(),
            Shape::Line(l) => l.json(),
            Shape::Fill(f) => f.json(),
            Shape::Stroke(st) => st.json(),
        }
    }

    fn json_is_array(&self) -> (r: bool) {
        false
    }

    fn write_json(&self, s: &mut String) {
        match self {
            Shape::Rectangle(r) => r.write_json(s),
            Shape::Ellipse(e) => e.write_json(s),
            Shape::Line(l) => l.write_json(s),
            Shape::Fill(f) => f.write_json(s),
            Shape::Stroke(st) => st.write_json(s),
        }
    }
}

impl WriteJson for Layer {
    open spec fn json(&self) -> Seq<char> {
        seq!['{'] + r#""ip":"#@ + decimal(self.start as nat) + r#","op":"#@ + decimal(
            self.end as nat,
        ) + r#","st":0,"ks":{},"ty":4,"shapes":["#@ + joined(self.shapes@) + seq![']', '}']
    }

    fn json_is_array(&self) -> (r: bool) {
        false
    }

    fn write_json(&self, s: &mut String) {
        push_char(s, '{');
        push_str(s, r#""ip":"#);
        push_decimal(s, self.start);
        push_str(s, r#","op":"#);
        push_decimal(s, self.end);
        push_str(s, r#","st":0,"ks":{},"ty":4,"shapes":["#);
        self.shapes.write_json(s);
        push_char(s, ']');
        push_char(s, '}');
        assert(s@ =~= old(s)@ + self.json());
    }
}

impl File {
    /// The JSON text of the whole file.
    pub open spec fn json(&self) -> Seq<char> {
        seq!['{'] + r#""fr":"#@ + decimal(self.frame_rate as nat) + r#","ip":0,"op":"#@
            + decimal(self.length as nat) + r#","w":"#@ + decimal(self.width as nat)
            + r#","h":"#@ + decimal(self.height as nat) + r#","layers":["#@ + joined(
            self.layers@,
        ) + seq![']', '}']
    }

    /// The file as Lottie JSON.
    pub fn as_json(&self) -> (r: String)
        ensures
            r@ == self.json(),
    {
        let mut s = String::new();
        push_char(&mut s, '{');
        push_str(&mut s, r#""fr":"#);
        push_decimal(&mut s, self.frame_rate as u64);
        push_str(&mut s, r#","ip":0,"op":"#);
        push_decimal(&mut s, self.length);
        push_str(&mut s, r#","w":"#);
        push_decimal(&mut s, self.width as u64);
        push_str(&mut s, r#","h":"#);
        push_decimal(&mut s, self.height as u64);
        push_str(&mut s, r#","layers":["#);
        self.layers.write_json(&mut s);
        push_char(&mut s, ']');
        push_char(&mut s, '}');
        assert(s@ =~= self.json());
        s
    }
}

} // verus!
