//! The trajectory recorder: turns the per-tick positions of each node into
//! run-length keyframes.
use std::collections::HashMap;
use vstd::prelude::*;
use vstd::std_specs::iter::IteratorSpec;

use crate::fixed::SCALE;
use crate::lottie::{Colour, Coords, Ellipse, File, Fill, Keyframe, Layer, Prop, Shape};
use crate::vec2d::Vec2d;

verus! {

broadcast use vstd::std_specs::hash::group_hash_axioms;

/// Diameter of a node's circle, in pixels.
pub const NODE_SIZE: u32 = 20;

/// Width and height of the animation, in pixels.
pub const CANVAS_SIZE: u32 = 1000;

/// Frames per second of the animation.
pub const FRAME_RATE: u32 = 60;

/// A position held for `length` consecutive ticks.
#[derive(Clone, Copy, Debug, PartialEq, Eq, Structural)]
pub struct Frame {
    pub pos: Vec2d,
    pub length: u64,
}

/// The trajectory of one node: the tick it appeared at, its colour and its
/// run-length frames.
#[derive(Debug)]
pub struct Record {
    pub start: u64,
    pub colour: Colour,
    pub frames: Vec<Frame>,
}

/// What a record holds.
pub ghost struct RecordView {
    pub start: u64,
    pub colour: Colour,
    pub frames: Seq<Frame>,
}

impl View for Record {
    type V = RecordView;

    open spec fn view(&self) -> RecordView {
        RecordView { start: self.start, colour: self.colour, frames: self.frames@ }
    }
}

/// The number of ticks that a run of frames covers.
pub open spec fn total(frames: Seq<Frame>) -> int
    decreases frames.len(),
{
    if frames.len() == 0 {
        0
    } else {
        total(frames.drop_last()) + frames.last().length
    }
}

/// Whether `pos` counts as unchanged from `anchor`: on both axes
/// `anchor - pos` lies in `[-1, 1)` pixel.
pub open spec fn same_spot(anchor: Vec2d, pos: Vec2d) -> bool {
    &&& -SCALE <= anchor.x - pos.x < SCALE
    &&& -SCALE <= anchor.y - pos.y < SCALE
}

/// The frames after one more tick at `pos`: the last frame grows by one tick
/// if `pos` is the same spot as its position, else a new frame of one tick
/// starts.
pub open spec fn pushed(frames: Seq<Frame>, pos: Vec2d) -> Seq<Frame> {
    if frames.len() > 0 && same_spot(frames.last().pos, pos) {
        frames.update(
            frames.len() - 1,
            Frame { pos: frames.last().pos, length: (frames.last().length + 1) as u64 },
        )
    } else {
        frames.push(Frame { pos, length: 1 })
    }
}

/// The frames after one tick at each position of `ps` in turn.
pub open spec fn pushed_all(frames: Seq<Frame>, ps: Seq<Vec2d>) -> Seq<Frame>
    decreases ps.len(),
{
    if ps.len() == 0 {
        frames
    } else {
        pushed(pushed_all(frames, ps.drop_last()), ps.last())
    }
}

/// One pixel coordinate of a fixed-point coordinate: rounded down, and held
/// in the range of `u32`.
pub open spec fn pixel(v: i64) -> u32 {
    if v < 0 {
        0
    } else if v / SCALE > u32::MAX {
        u32::MAX
    } else {
        (v / SCALE) as u32
    }
}

pub open spec fn coords_of(p: Vec2d) -> Coords {
    Coords(pixel(p.x), pixel(p.y))
}

impl RecordView {
    /// The tick at which this record's trajectory ends.
    pub open spec fn end(self) -> int {
        self.start + total(self.frames)
    }

    /// One keyframe per frame, at the tick the frame begins.
    pub open spec fn keyframes(self) -> Seq<Keyframe<Coords>> {
        Seq::new(
            self.frames.len(),
            |i: int|
                Keyframe {
                    time: (self.start + total(self.frames.take(i))) as u64,
                    value: coords_of(self.frames[i].pos),
                },
        )
    }
}

/// Whether `layer` is the rendering of `rec`: visible from its start to its
/// end, an ellipse moving through its keyframes, filled with its colour.
pub open spec fn renders(layer: Layer, rec: RecordView) -> bool {
    &&& layer.start == rec.start
    &&& layer.end == rec.end()
    &&& layer.shapes@.len() == 2
    &&& match layer.shapes@[0] {
        Shape::Ellipse(e) => {
            &&& match e.center {
                Prop::Animated(k) => k@ == rec.keyframes(),
                Prop::Static(_) => false,
            }
            &&& e.size == Prop::Static(Coords(NODE_SIZE, NODE_SIZE))
        },
        _ => false,
    }
    &&& match layer.shapes@[1] {
        Shape::Fill(f) => f.colour == Prop::Static(rec.colour) && f.opacity == Prop::Static(
            100u8,
        ),
        _ => false,
    }
}

/// The ticks covered by a prefix of the frames never exceed the whole.
pub proof fn lemma_total_prefix(frames: Seq<Frame>, i: int)
    requires
        0 <= i <= frames.len(),
    ensures
        0 <= total(frames.take(i)) <= total(frames),
        i < frames.len() ==> total(frames.take(i + 1)) == total(frames.take(i))
            + frames[i].length,
    decreases frames.len(),
{
    if i < frames.len() {
        let d = frames.drop_last();
        lemma_total_prefix(d, i);
        if i < d.len() {
            assert(d.take(i) =~= frames.take(i));
            assert(d.take(i + 1) =~= frames.take(i + 1));
        } else {
            assert(d =~= frames.take(i));
        }
        assert(frames.take(i + 1).drop_last() =~= frames.take(i));
    } else {
        assert(frames.take(i) =~= frames);
        lemma_total_nonneg(frames);
    }
}

proof fn lemma_total_nonneg(frames: Seq<Frame>)
    ensures
        total(frames) >= 0,
    decreases frames.len(),
{
    if frames.len() > 0 {
        lemma_total_nonneg(frames.drop_last());
    }
}

/// The keyframes of a record tile its lifetime without gaps or overlaps: the
/// first begins at the record's start, each next one where the frame before
/// it ends, and the last frame ends where the record ends.
pub proof fn lemma_keyframes_tile(rec: RecordView)
    requires
        rec.end() <= u64::MAX,
        rec.frames.len() > 0,
    ensures
        rec.keyframes()[0].time == rec.start,
        forall|i: int|
            0 <= i < rec.frames.len() - 1 ==> (#[trigger] rec.keyframes()[i + 1]).time
                == rec.keyframes()[i].time + rec.frames[i].length,
        rec.keyframes()[rec.frames.len() - 1].time + rec.frames[rec.frames.len() - 1].length
            == rec.end(),
{
    let f = rec.frames;
    let n = f.len() as int;
    assert(f.take(0) =~= Seq::<Frame>::empty());
    assert forall|i: int| 0 <= i < n - 1 implies (#[trigger] rec.keyframes()[i + 1]).time
        == rec.keyframes()[i].time + f[i].length by {
        lemma_total_prefix(f, i);
        lemma_total_prefix(f, i + 1);
    }
    lemma_total_prefix(f, n - 1);
    lemma_total_prefix(f, n);
    assert(f.take(n) =~= f);
}

/// One more tick adds exactly one tick to the frames' total.
pub proof fn lemma_pushed_total(frames: Seq<Frame>, pos: Vec2d)
    requires
        frames.len() > 0 ==> frames.last().length < u64::MAX,
    ensures
        total(pushed(frames, pos)) == total(frames) + 1,
{
    let p = pushed(frames, pos);
    if frames.len() > 0 && same_spot(frames.last().pos, pos) {
        assert(p.drop_last() =~= frames.drop_last());
    } else {
        assert(p.drop_last() =~= frames);
    }
}

/// A run of positions that all stay within the tolerance band of the first
/// one collapses into one frame, at the first position, whose length is the
/// number of positions.
pub proof fn lemma_band_run_single_frame(ps: Seq<Vec2d>)
    requires
        1 <= ps.len() <= u64::MAX,
        forall|i: int| 0 <= i < ps.len() ==> same_spot(ps[0], #[trigger] ps[i]),
    ensures
        pushed_all(Seq::empty(), ps) == seq![Frame { pos: ps[0], length: ps.len() as u64 }],
    decreases ps.len(),
{
    if ps.len() == 1 {
        assert(ps.drop_last() =~= Seq::<Vec2d>::empty());
        assert(pushed_all(Seq::empty(), ps.drop_last()) == Seq::<Frame>::empty());
        assert(pushed_all(Seq::empty(), ps) =~= seq![Frame { pos: ps[0], length: 1 }]);
    } else {
        let d = ps.drop_last();
        assert forall|i: int| 0 <= i < d.len() implies same_spot(d[0], #[trigger] d[i]) by {
            assert(same_spot(ps[0], ps[i]));
        }
        lemma_band_run_single_frame(d);
        assert(same_spot(ps[0], ps[ps.len() - 1]));
        assert(pushed_all(Seq::empty(), ps) =~= seq![
            Frame { pos: ps[0], length: ps.len() as u64 },
        ]);
    }
}

/// Feeding the same position for `k` ticks gives exactly one frame of length
/// `k`.
pub proof fn lemma_static_run_single_frame(p: Vec2d, k: nat)
    requires
        1 <= k <= u64::MAX,
    ensures
        pushed_all(Seq::empty(), Seq::new(k, |i: int| p)) == seq![Frame { pos: p, length: k as u64 }],
{
    let ps = Seq::new(k, |i: int| p);
    assert forall|i: int| 0 <= i < ps.len() implies same_spot(ps[0], #[trigger] ps[i]) by {}
    lemma_band_run_single_frame(ps);
}

/// A position at or past the edge of the tolerance band around the last
/// frame's position starts a new frame of one tick.
pub proof fn lemma_band_exit_new_frame(frames: Seq<Frame>, pos: Vec2d)
    requires
        frames.len() > 0,
        !same_spot(frames.last().pos, pos),
    ensures
        pushed(frames, pos) == frames.push(Frame { pos, length: 1 }),
{
}

/// Fixed-point coordinate to whole pixels, rounded down and held in `u32`.
pub fn to_pixel(v: i64) -> (r: u32)
    ensures
        r == pixel(v),
{
    if v < 0 {
        0
    } else if v / SCALE > u32::MAX as i64 {
        u32::MAX
    } else {
        (v / SCALE) as u32
    }
}

impl Record {
    /// Records one more tick at `pos`.
    pub fn push_pos(&mut self, pos: Vec2d)
        requires
            old(self)@.end() < u64::MAX,
        ensures
            final(self)@ == (RecordView { frames: pushed(old(self)@.frames, pos), ..old(self)@ }),
            final(self)@.end() == old(self)@.end() + 1,
    {
        let n = self.frames.len();
        let ghost f = self.frames@;
        if n > 0 {
            let last = self.frames[n - 1];
            let dx = last.pos.x as i128 - pos.x as i128;
            let dy = last.pos.y as i128 - pos.y as i128;
            if -(SCALE as i128) <= dx && dx < SCALE as i128 && -(SCALE as i128) <= dy && dy
                < SCALE as i128 {
                proof {
                    lemma_total_prefix(f, n - 1);
                    assert(f.take(n - 1) =~= f.drop_last());
                    lemma_total_nonneg(f.drop_last());
                }
                self.frames.set(n - 1, Frame { pos: last.pos, length: last.length + 1 });
                proof {
                    assert(self.frames@ =~= pushed(f, pos));
                    lemma_pushed_total(f, pos);
                }
                return;
            }
        }
        self.frames.push(Frame { pos, length: 1 });
        proof {
            assert(self.frames@ =~= pushed(f, pos));
            if n > 0 {
                lemma_total_nonneg(f.drop_last());
            }
            lemma_pushed_total(f, pos);
        }
    }

    /// The layer that animates this record: an ellipse with one keyframe per
    /// frame, filled with the record's colour.
    pub fn render(&self) -> (r: Layer)
        requires
            self@.end() <= u64::MAX,
        ensures
            renders(r, self@),
    {
        let mut keyframes: Vec<Keyframe<Coords>> = Vec::new();
        let mut time: u64 = self.start;
        let mut i: usize = 0;
        while i < self.frames.len()
            invariant
                self@.end() <= u64::MAX,
                i <= self.frames@.len(),
                time == self.start + total(self.frames@.take(i as int)),
                keyframes@ == self@.keyframes().take(i as int),
            decreases self.frames@.len() - i,
        {
            let frame = self.frames[i];
            proof {
                lemma_total_prefix(self.frames@, i as int);
                lemma_total_prefix(self.frames@, i + 1);
            }
            keyframes.push(
                Keyframe { time, value: Coords(to_pixel(frame.pos.x), to_pixel(frame.pos.y)) },
            );
            time = time + frame.length;
            i = i + 1;
            assert(keyframes@ =~= self@.keyframes().take(i as int));
        }
        assert(keyframes@ =~= self@.keyframes());
        assert(self.frames@.take(i as int) =~= self.frames@);
        let mut shapes: Vec<Shape> = Vec::new();
        shapes.push(
            Shape::Ellipse(
                Ellipse {
                    center: Prop::Animated(keyframes),
                    size: Prop::Static(Coords(NODE_SIZE, NODE_SIZE)),
                },
            ),
        );
        shapes.push(
            Shape::Fill(Fill { colour: Prop::Static(self.colour), opacity: Prop::Static(100) }),
        );
        Layer { start: self.start, end: time, shapes }
    }
}

/// The error of a recorder call on an id that has no open record.
#[derive(Clone, Copy, Debug, PartialEq, Eq, Structural)]
pub enum RecorderError {
    UnknownNode,
}

/// Records the trajectories of the nodes of a simulation, tick by tick.
/// Records of nodes still present are open; those of removed nodes are
/// closed and kept, in the order they were closed.
#[derive(Debug)]
pub struct History {
    open: HashMap<u64, Record>,
    closed: Vec<Record>,
    step: u64,
}

/// What a recorder holds.
pub ghost struct HistoryView {
    pub open: Map<u64, RecordView>,
    pub closed: Seq<RecordView>,
    pub step: u64,
}

impl HistoryView {
    /// Every record ends within the range of a tick counter.
    pub open spec fn wf(self) -> bool {
        &&& forall|k: u64| #[trigger] self.open.contains_key(k) ==> self.open[k].end() <= u64::MAX
        &&& forall|i: int| 0 <= i < self.closed.len() ==> (#[trigger] self.closed[i]).end() <= u64::MAX
    }

    /// Whether `f` animates this recorder's records: closed records first, in
    /// the order they were closed, then each open record once, in some order.
    pub open spec fn rendered_by(self, f: File) -> bool {
        &&& f.frame_rate == FRAME_RATE
        &&& f.width == CANVAS_SIZE
        &&& f.height == CANVAS_SIZE
        &&& f.length == self.step
        &&& f.layers@.len() == self.closed.len() + self.open.dom().len()
        &&& forall|i: int|
            0 <= i < self.closed.len() ==> renders(#[trigger] f.layers@[i], self.closed[i])
        &&& exists|ks: Seq<u64>|
            {
                &&& ks.no_duplicates()
                &&& ks.to_set() == self.open.dom()
                &&& ks.len() == self.open.dom().len()
                &&& forall|j: int|
                    0 <= j < ks.len() ==> renders(
                        #[trigger] f.layers@[self.closed.len() + j],
                        self.open[ks[j]],
                    )
            }
    }

    /// The recorder after one more tick at `pos` for the open record `id`.
    pub open spec fn with_position(self, id: u64, pos: Vec2d) -> HistoryView {
        HistoryView {
            open: self.open.insert(
                id,
                RecordView { frames: pushed(self.open[id].frames, pos), ..self.open[id] },
            ),
            ..self
        }
    }

    /// The recorder after a new record for `id` opens at the current tick.
    pub open spec fn with_node(self, id: u64, colour: Colour) -> HistoryView {
        HistoryView {
            open: self.open.insert(
                id,
                RecordView { start: self.step, colour, frames: Seq::empty() },
            ),
            ..self
        }
    }

    /// The recorder after the open record `id` is closed.
    pub open spec fn without_node(self, id: u64) -> HistoryView {
        HistoryView {
            open: self.open.remove(id),
            closed: self.closed.push(self.open[id]),
            ..self
        }
    }
}

/// The recorder after, for each position of `ps` in turn, recording it for
/// `id` and advancing the tick: what `set_position` then `next_step` give.
pub open spec fn fed(h: HistoryView, id: u64, ps: Seq<Vec2d>) -> HistoryView
    decreases ps.len(),
{
    if ps.len() == 0 {
        h
    } else {
        let f = fed(h, id, ps.drop_last()).with_position(id, ps.last());
        HistoryView { step: (f.step + 1) as u64, ..f }
    }
}

/// Feeding positions to a record pushes them onto its frames one by one.
proof fn lemma_fed_frames(h: HistoryView, id: u64, ps: Seq<Vec2d>)
    requires
        h.open.contains_key(id),
    ensures
        fed(h, id, ps).open.contains_key(id),
        fed(h, id, ps).open[id].frames == pushed_all(h.open[id].frames, ps),
    decreases ps.len(),
{
    if ps.len() > 0 {
        lemma_fed_frames(h, id, ps.drop_last());
    }
}

/// A node fed positions that all stay within the tolerance band of the first,
/// starting from a fresh record, has exactly one frame, at the first
/// position, whose length is the number of ticks.
pub proof fn lemma_fed_band_single_frame(h: HistoryView, id: u64, ps: Seq<Vec2d>)
    requires
        h.open.contains_key(id),
        h.open[id].frames.len() == 0,
        1 <= ps.len() <= u64::MAX,
        forall|i: int| 0 <= i < ps.len() ==> same_spot(ps[0], #[trigger] ps[i]),
    ensures
        fed(h, id, ps).open[id].frames == seq![Frame { pos: ps[0], length: ps.len() as u64 }],
{
    lemma_fed_frames(h, id, ps);
    assert(h.open[id].frames =~= Seq::<Frame>::empty());
    lemma_band_run_single_frame(ps);
}

/// A node fed the same position for `k` ticks, starting from a fresh record,
/// has exactly one frame, of length `k`.
pub proof fn lemma_fed_static_single_frame(h: HistoryView, id: u64, p: Vec2d, k: nat)
    requires
        h.open.contains_key(id),
        h.open[id].frames.len() == 0,
        1 <= k <= u64::MAX,
    ensures
        fed(h, id, Seq::new(k, |i: int| p)).open[id].frames == seq![
            Frame { pos: p, length: k as u64 },
        ],
{
    let ps = Seq::new(k, |i: int| p);
    assert forall|i: int| 0 <= i < ps.len() implies same_spot(ps[0], #[trigger] ps[i]) by {}
    lemma_fed_band_single_frame(h, id, ps);
}

impl View for History {
    type V = HistoryView;

    closed spec fn view(&self) -> HistoryView {
        HistoryView {
            open: Map::new(|k: u64| self.open@.contains_key(k), |k: u64| self.open@[k]@),
            closed: self.closed@.map_values(|r: Record| r@),
            step: self.step,
        }
    }
}

impl History {
    /// A recorder with no records, at tick 0.
    pub fn new() -> (r: History)
        ensures
            r@.wf(),
            r@.open == Map::<u64, RecordView>::empty(),
            r@.closed == Seq::<RecordView>::empty(),
            r@.step == 0,
    {
        let r = History { open: HashMap::new(), closed: Vec::new(), step: 0 };
        assert(r@.open =~= Map::empty());
        assert(r@.closed =~= Seq::empty());
        r
    }

    /// The current tick.
    pub fn step(&self) -> (r: u64)
        ensures
            r == self@.step,
    {
        self.step
    }

    /// Opens a record for `id` at the current tick, with no frames yet. A
    /// record already open for `id` is replaced.
    pub fn add_node(&mut self, id: u64, colour: [u8; 3])
        requires
            old(self)@.wf(),
        ensures
            final(self)@.wf(),
            final(self)@ == old(self)@.with_node(id, Colour(colour@[0], colour@[1], colour@[2])),
            final(self)@.open[id].end() == old(self)@.step,
    {
        let colour = Colour(colour[0], colour[1], colour[2]);
        self.open.insert(id, Record { start: self.step, colour, frames: Vec::new() });
        proof {
            let o = old(self)@;
            assert(self@.open =~= o.open.insert(id, RecordView { start: o.step, colour, frames: Seq::empty() }));
            assert(self@.closed =~= o.closed);
        }
    }

    /// Closes the record of `id`, keeping it for rendering. Fails with
    /// `UnknownNode`, changing nothing, if `id` has no open record.
    pub fn remove_node(&mut self, id: u64) -> (r: Result<(), RecorderError>)
        requires
            old(self)@.wf(),
        ensures
            final(self)@.wf(),
            r is Ok <==> old(self)@.open.contains_key(id),
            r is Ok ==> final(self)@ == old(self)@.without_node(id),
            r is Err ==> final(self)@ == old(self)@ && r == Err::<(), RecorderError>(
                RecorderError::UnknownNode,
            ),
    {
        match self.open.remove(&id) {
            Some(record) => {
                self.closed.push(record);
                proof {
                    let o = old(self)@;
                    assert(self@.open =~= o.open.remove(id));
                    assert(self@.closed =~= o.closed.push(o.open[id]));
                    assert(self@.wf()) by {
                        assert forall|i: int| 0 <= i < self@.closed.len() implies (
                        #[trigger] self@.closed[i]).end() <= u64::MAX by {
                            if i < o.closed.len() {
                                assert(self@.closed[i] == o.closed[i]);
                            } else {
                                assert(o.open.contains_key(id));
                            }
                        }
                    }
                }
                Ok(())
            },
            None => {
                proof {
                    assert(self@.open =~= old(self)@.open);
                }
                Err(RecorderError::UnknownNode)
            },
        }
    }

    /// Records the position of `id` for the current tick. Fails with
    /// `UnknownNode`, changing nothing, if `id` has no open record.
    pub fn set_position(&mut self, id: u64, pos: Vec2d) -> (r: Result<(), RecorderError>)
        requires
            old(self)@.wf(),
            old(self)@.open.contains_key(id) ==> old(self)@.open[id].end() < u64::MAX,
        ensures
            final(self)@.wf(),
            r is Ok <==> old(self)@.open.contains_key(id),
            r is Ok ==> final(self)@ == old(self)@.with_position(id, pos),
            r is Ok ==> final(self)@.open[id].end() == old(self)@.open[id].end() + 1,
            r is Err ==> final(self)@ == old(self)@ && r == Err::<(), RecorderError>(
                RecorderError::UnknownNode,
            ),
    {
        match self.open.remove(&id) {
            Some(mut record) => {
                assert(record@ == old(self)@.open[id]);
                record.push_pos(pos);
                self.open.insert(id, record);
                proof {
                    let o = old(self)@;
                    assert(self@.open =~= o.with_position(id, pos).open);
                }
                Ok(())
            },
            None => {
                proof {
                    assert(self@.open =~= old(self)@.open);
                }
                Err(RecorderError::UnknownNode)
            },
        }
    }

    /// Advances the tick counter; called once per tick, after every position
    /// of that tick.
    pub fn next_step(&mut self)
        requires
            old(self)@.step < u64::MAX,
        ensures
            final(self)@ == (HistoryView { step: (old(self)@.step + 1) as u64, ..old(self)@ }),
    {
        self.step = self.step + 1;
        proof {
            assert(self@.open =~= old(self)@.open);
        }
    }

    /// The animation of every record: closed records first, in the order they
    /// were closed, then each open record once, in the order the table
    /// yields them.
    pub fn render(&self) -> (r: File)
        requires
            self@.wf(),
        ensures
            self@.rendered_by(r),
    {
        let mut layers: Vec<Layer> = Vec::new();
        let mut i: usize = 0;
        while i < self.closed.len()
            invariant
                self@.wf(),
                i <= self.closed@.len(),
                layers@.len() == i,
                forall|j: int| 0 <= j < i ==> renders(#[trigger] layers@[j], self@.closed[j]),
            decreases self.closed@.len() - i,
        {
            assert(self@.closed[i as int] == self.closed@[i as int]@);
            let layer = self.closed[i].render();
            layers.push(layer);
            i = i + 1;
        }
        let n = self.closed.len();
        let ghost all = vstd::std_specs::hash::spec_keys_iter(&self.open).remaining();
        proof {
            assert(all.unref().to_set() == self.open@.dom());
            assert forall|j: int| 0 <= j < all.len() implies self.open@.contains_key(
                *#[trigger] all[j],
            ) by {
                assert(all.unref()[j] == *all[j]);
                assert(all.unref().to_set().contains(all.unref()[j]));
            }
        }
        for k in it: self.open.keys()
            invariant
                self@.wf(),
                it.seq() == all,
                n == self@.closed.len(),
                layers@.len() == n + it.index(),
                forall|j: int| 0 <= j < n ==> renders(#[trigger] layers@[j], self@.closed[j]),
                forall|j: int|
                    0 <= j < it.index() ==> renders(
                        #[trigger] layers@[n + j],
                        self@.open[*all[j]],
                    ),
                forall|j: int| 0 <= j < all.len() ==> self.open@.contains_key(*#[trigger] all[j]),
        {
            assert(self.open@.contains_key(*all[it.index() as int]));
            let record = self.open.get(k).unwrap();
            assert(record@ == self@.open[*k]);
            assert(self@.open.contains_key(*k));
            let layer = record.render();
            layers.push(layer);
        }
        proof {
            let ks = all.map_values(|p: &u64| *p);
            assert(all.unref() =~= ks);
            assert(ks.to_set() =~= self@.open.dom());
            assert(layers@.len() == n + ks.len());
            assert forall|j: int| 0 <= j < ks.len() implies renders(
                #[trigger] layers@[self@.closed.len() + j],
                self@.open[ks[j]],
            ) by {
                assert(renders(layers@[n + j], self@.open[*all[j]]));
            }
        }
        File {
            frame_rate: FRAME_RATE,
            width: CANVAS_SIZE,
            height: CANVAS_SIZE,
            length: self.step,
            layers,
        }
    }
}

} // verus!
