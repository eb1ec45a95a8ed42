//! The simulation: a graph laid out tick by tick, with every node's
//! trajectory recorded.
use rand::rngs::StdRng;
use vstd::prelude::*;

use crate::fixed::SCALE;
use crate::graph::{without_key, Graph, GraphView};
use crate::history::{History, HistoryView, RecordView};
use crate::layout::{moves_of, step, stepped, SimNode};
use crate::lottie::{Colour, File};
use crate::rng::seeded_rng;
use crate::vec2d::{half_circle_point, within, Vec2d};

verus! {

/// Width and height of the canvas, in pixels; new nodes start near its centre.
pub const SIZE: i64 = 1000;

/// How far from the centre a new node starts, in pixels.
pub const STARTING_JITTER: i64 = 5;

/// The seed of the generator of `System::new`.
pub const DEFAULT_SEED: u64 = 0;

/// The ticks that every record of the history has seen, one position per
/// tick of `moves`, in order.
pub open spec fn recorded(h: HistoryView, moves: Seq<(u64, Vec2d)>) -> HistoryView
    decreases moves.len(),
{
    if moves.len() == 0 {
        h
    } else {
        recorded(h, moves.drop_last()).with_position(moves.last().0, moves.last().1)
    }
}

/// Where a node starts: the canvas centre, moved `STARTING_JITTER` pixels
/// along `direction`, a vector of length `SCALE`.
pub open spec fn start_position(direction: Vec2d) -> Vec2d {
    Vec2d {
        x: (SIZE / 2 * SCALE + STARTING_JITTER * direction.x) as i64,
        y: (SIZE / 2 * SCALE + STARTING_JITTER * direction.y) as i64,
    }
}

/// What a simulation holds, apart from its random generator.
pub ghost struct SystemView {
    pub graph: GraphView,
    pub history: HistoryView,
    pub steps: u64,
}

impl SystemView {
    /// The graph and the history agree: the same nodes, and each node's
    /// record covers every tick from its start to now.
    pub open spec fn wf(self) -> bool {
        &&& self.graph.wf()
        &&& self.history.wf()
        &&& self.history.step == self.steps
        &&& forall|k: u64| #[trigger]
            self.graph.nodes.contains_key(k) <==> self.history.open.contains_key(k)
        &&& forall|k: u64| #[trigger]
            self.history.open.contains_key(k) ==> self.history.open[k].end() == self.steps
    }

    /// The simulation after node `id` is added at rest at the starting
    /// position for `direction`.
    pub open spec fn with_node(self, id: u64, colour: [u8; 3], direction: Vec2d) -> SystemView {
        SystemView {
            graph: self.graph.added(
                SimNode {
                    id,
                    pos: start_position(direction),
                    velocity: Vec2d { x: 0, y: 0 },
                },
            ),
            history: self.history.with_node(id, Colour(colour@[0], colour@[1], colour@[2])),
            steps: self.steps,
        }
    }

    /// The simulation after one tick: the graph steps, each new position is
    /// recorded, and the tick counters advance.
    pub open spec fn ticked(self) -> SystemView {
        let h = recorded(self.history, moves_of(self.graph));
        SystemView {
            graph: stepped(self.graph),
            history: HistoryView { step: (h.step + 1) as u64, ..h },
            steps: (self.steps + 1) as u64,
        }
    }
}

/// The simulation after `n` ticks.
#[verifier::opaque]
pub open spec fn run_ticks(s: SystemView, n: nat) -> SystemView
    decreases n,
{
    if n == 0 {
        s
    } else {
        run_ticks(s, (n - 1) as nat).ticked()
    }
}

/// Ticking is deterministic: two simulations that hold the same nodes, weights
/// and records end, after the same number of ticks, with the same positions,
/// velocities and trajectories.
pub proof fn lemma_runs_agree(a: SystemView, b: SystemView, n: nat)
    requires
        a == b,
    ensures
        run_ticks(a, n) == run_ticks(b, n),
{
}

/// Ticking keeps the simulation's invariant, its set of nodes and its set of
/// open records.
pub proof fn lemma_run_keeps(s: SystemView, n: nat)
    requires
        s.wf(),
        s.steps + n <= u64::MAX,
    ensures
        run_ticks(s, n).wf(),
        run_ticks(s, n).steps == s.steps + n,
        run_ticks(s, n).graph.nodes.dom() == s.graph.nodes.dom(),
        run_ticks(s, n).history.open.dom() == s.history.open.dom(),
        run_ticks(s, n).history.closed == s.history.closed,
        forall|k: u64| #[trigger]
            s.history.open.contains_key(k) ==> run_ticks(s, n).history.open[k].start
                == s.history.open[k].start,
    decreases n,
{
    reveal(run_ticks);
    if n > 0 {
        lemma_run_keeps(s, (n - 1) as nat);
        lemma_tick_keeps(run_ticks(s, (n - 1) as nat));
    }
}

/// Each record gains exactly one tick per position recorded for it; the rest
/// of the history stays as it was.
proof fn lemma_recorded(h: HistoryView, moves: Seq<(u64, Vec2d)>)
    requires
        h.wf(),
        forall|a: int, b: int| 0 <= a < b < moves.len() ==> moves[a].0 != moves[b].0,
        forall|i: int| 0 <= i < moves.len() ==> h.open.contains_key(#[trigger] moves[i].0),
        forall|i: int|
            0 <= i < moves.len() ==> h.open[#[trigger] moves[i].0].end() < u64::MAX,
    ensures
        recorded(h, moves).wf(),
        recorded(h, moves).step == h.step,
        recorded(h, moves).closed == h.closed,
        recorded(h, moves).open.dom() == h.open.dom(),
        forall|k: u64| #[trigger]
            recorded(h, moves).open.contains_key(k) ==> recorded(h, moves).open[k].start
                == h.open[k].start && recorded(h, moves).open[k].end() == h.open[k].end() + if (
            exists|i: int| 0 <= i < moves.len() && moves[i].0 == k) {
                1int
            } else {
                0int
            },
    decreases moves.len(),
{
    if moves.len() > 0 {
        let d = moves.drop_last();
        lemma_recorded(h, d);
        let r = recorded(h, d);
        let (id, pos) = moves.last();
        assert(moves[moves.len() - 1].0 == id);
        assert(!(exists|i: int| 0 <= i < d.len() && d[i].0 == id)) by {
            if exists|i: int| 0 <= i < d.len() && d[i].0 == id {
                let i = choose|i: int| 0 <= i < d.len() && d[i].0 == id;
                assert(moves[i].0 == id);
            }
        }
        assert(h.open.contains_key(id));
        assert(r.open.contains_key(id));
        let rec = r.open[id];
        if rec.frames.len() > 0 {
            crate::history::lemma_total_prefix(rec.frames, rec.frames.len() - 1);
            assert(rec.frames.take(rec.frames.len() - 1) =~= rec.frames.drop_last());
        }
        crate::history::lemma_pushed_total(rec.frames, pos);
        let out = recorded(h, moves);
        assert(out == r.with_position(id, pos));
        assert(out.open.dom() =~= h.open.dom());
        assert forall|k: u64| #[trigger] out.open.contains_key(k) implies out.open[k].start
            == h.open[k].start && out.open[k].end() == h.open[k].end() + if (exists|i: int|
            0 <= i < moves.len() && moves[i].0 == k) {
            1int
        } else {
            0int
        } by {
            if k == id {
                assert(moves[moves.len() - 1].0 == k);
            } else {
                assert(r.open.contains_key(k));
                if exists|i: int| 0 <= i < moves.len() && moves[i].0 == k {
                    let i = choose|i: int| 0 <= i < moves.len() && moves[i].0 == k;
                    assert(i < d.len());
                    assert(d[i].0 == k);
                } else {
                    assert(!(exists|i: int| 0 <= i < d.len() && d[i].0 == k)) by {
                        if exists|i: int| 0 <= i < d.len() && d[i].0 == k {
                            let i = choose|i: int| 0 <= i < d.len() && d[i].0 == k;
                            assert(moves[i].0 == k);
                        }
                    }
                }
            }
        }
    }
}

/// One tick keeps the simulation's invariant and its set of nodes.
proof fn lemma_tick_keeps(s: SystemView)
    requires
        s.wf(),
        s.steps < u64::MAX,
    ensures
        s.ticked().wf(),
        s.ticked().steps == s.steps + 1,
        s.ticked().graph.nodes.dom() == s.graph.nodes.dom(),
        s.ticked().history.open.dom() == s.history.open.dom(),
        s.ticked().history.closed == s.history.closed,
        forall|k: u64| #[trigger]
            s.history.open.contains_key(k) ==> s.ticked().history.open[k].start
                == s.history.open[k].start,
{
    let g = s.graph;
    let moves = moves_of(g);
    assert forall|i: int| 0 <= i < moves.len() implies s.history.open.contains_key(
        #[trigger] moves[i].0,
    ) by {
        assert(g.nodes.contains_key(g.order[i]));
    }
    assert forall|i: int| 0 <= i < moves.len() implies s.history.open[
        #[trigger] moves[i].0
    ].end() < u64::MAX by {
        assert(g.nodes.contains_key(g.order[i]));
    }
    lemma_recorded(s.history, moves);
    let h = recorded(s.history, moves);
    let t = s.ticked();
    assert(stepped(g).nodes.dom() =~= g.nodes.dom());
    assert forall|k: u64| #[trigger] t.history.open.contains_key(k) implies t.history.open[k].end()
        == t.steps by {
        assert(g.nodes.contains_key(k));
        assert(g.order.contains(k));
        let i = choose|i: int| 0 <= i < g.order.len() && g.order[i] == k;
        assert(moves[i].0 == k);
    }
    assert(stepped(g).wf()) by {
        assert forall|k: u64| #[trigger] stepped(g).nodes.contains_key(k) implies stepped(
            g,
        ).nodes[k].id == k && stepped(g).nodes[k].wf() by {
            crate::layout::lemma_moved_wf(g, k);
        }
        assert forall|a: u64, b: u64| #[trigger] stepped(g).weights.contains_key((a, b)) implies {
            &&& stepped(g).weights.contains_key((b, a))
            &&& stepped(g).weights[(b, a)] == stepped(g).weights[(a, b)]
            &&& stepped(g).nodes.contains_key(a)
            &&& stepped(g).nodes.contains_key(b)
        } by {
            assert(g.weights.contains_key((a, b)));
        }
    }
}

/// A simulation of a graph laid out by springs, with every node's trajectory
/// recorded.
pub struct System {
    graph: Graph,
    history: History,
    rng: StdRng,
    steps: u64,
}

impl View for System {
    type V = SystemView;

    closed spec fn view(&self) -> SystemView {
        SystemView { graph: self.graph@, history: self.history@, steps: self.steps }
    }
}

impl System {
    pub open spec fn wf(&self) -> bool {
        self@.wf()
    }

    /// An empty simulation whose generator is seeded with `DEFAULT_SEED`.
    pub fn new() -> (r: System)
        ensures
            r.wf(),
            r@.graph.nodes == Map::<u64, SimNode>::empty(),
            r@.history.open == Map::<u64, RecordView>::empty(),
            r@.history.closed == Seq::<RecordView>::empty(),
            r@.steps == 0,
    {
        System::with_seed(DEFAULT_SEED)
    }

    /// An empty simulation whose generator is seeded with `seed`: the same
    /// seed and the same calls give the same simulation.
    pub fn with_seed(seed: u64) -> (r: System)
        ensures
            r.wf(),
            r@.graph.nodes == Map::<u64, SimNode>::empty(),
            r@.history.open == Map::<u64, RecordView>::empty(),
            r@.history.closed == Seq::<RecordView>::empty(),
            r@.steps == 0,
    {
        System { graph: Graph::new(), history: History::new(), rng: seeded_rng(seed), steps: 0 }
    }

    /// The graph being laid out.
    pub fn graph(&self) -> (r: &Graph)
        ensures
            r@ == self@.graph,
    {
        &self.graph
    }

    /// The recorded trajectories.
    pub fn history(&self) -> (r: &History)
        ensures
            r@ == self@.history,
    {
        &self.history
    }

    /// The number of ticks so far.
    pub fn steps(&self) -> (r: u64)
        ensures
            r == self@.steps,
    {
        self.steps
    }

    /// Adds node `id`, at rest, `STARTING_JITTER` pixels from the canvas
    /// centre along `direction`, and opens its record at the current tick. A
    /// node with the same id is replaced. Returns `id`.
    pub fn add_node_towards(&mut self, id: u64, colour: [u8; 3], direction: Vec2d) -> (r: u64)
        requires
            old(self).wf(),
            within(direction, SCALE as int),
        ensures
            r == id,
            final(self).wf(),
            final(self)@ == old(self)@.with_node(id, colour, direction),
    {
        let pos = Vec2d {
            x: SIZE / 2 * SCALE + STARTING_JITTER * direction.x,
            y: SIZE / 2 * SCALE + STARTING_JITTER * direction.y,
        };
        let node = SimNode { id, pos, velocity: Vec2d { x: 0, y: 0 } };
        self.graph.add_node(node);
        self.history.add_node(id, colour);
        proof {
            let s = self@;
            assert forall|k: u64| #[trigger] s.graph.nodes.contains_key(k)
                <==> s.history.open.contains_key(k) by {
                if k != id {
                    assert(old(self)@.graph.nodes.contains_key(k) <==> old(
                        self,
                    )@.history.open.contains_key(k));
                }
            }
            assert forall|k: u64| #[trigger] s.history.open.contains_key(k) implies s.history.open[k].end()
                == s.steps by {
                if k != id {
                    assert(old(self)@.history.open.contains_key(k));
                } else {
                    assert(s.history.open[k].frames =~= Seq::empty());
                }
            }
        }
        id
    }

    /// Adds node `id` at rest, `STARTING_JITTER` pixels from the canvas centre
    /// along a random unit direction of the upper half-plane, and opens its record at the current tick. A node with
    /// the same id is replaced. Returns `id`.
    pub fn add_node(&mut self, id: u64, colour: [u8; 3]) -> (r: u64)
        requires
            old(self).wf(),
        ensures
            r == id,
            final(self).wf(),
            final(self)@.graph.nodes.dom() == old(self)@.graph.nodes.dom().insert(id),
            final(self)@.steps == old(self)@.steps,
            final(self)@.history.open.dom() == old(self)@.history.open.dom().insert(id),
            final(self)@.history.open[id].start == old(self)@.steps,
            final(self)@.history.closed == old(self)@.history.closed,
            forall|k: u64| #[trigger]
                old(self)@.history.open.contains_key(k) && k != id
                    ==> final(self)@.history.open[k] == old(self)@.history.open[k],
            exists|x: int|
                -SCALE <= x < SCALE && final(self)@ == old(self)@.with_node(
                    id,
                    colour,
                    half_circle_point(x),
                ),
    {
        let direction = Vec2d::random_unit(&mut self.rng);
        let r = self.add_node_towards(id, colour, direction);
        assert(self@.graph.nodes.dom() =~= old(self)@.graph.nodes.dom().insert(id));
        assert(self@.history.open.dom() =~= old(self)@.history.open.dom().insert(id));
        r
    }

    /// Sets the weight between two present nodes, in both directions.
    pub fn set_weight(&mut self, from: u64, to: u64, weight: i32)
        requires
            old(self).wf(),
            old(self)@.graph.nodes.contains_key(from),
            old(self)@.graph.nodes.contains_key(to),
        ensures
            final(self).wf(),
            final(self)@ == (SystemView {
                graph: GraphView {
                    weights: if from == to {
                        old(self)@.graph.weights
                    } else {
                        old(self)@.graph.weights.insert((from, to), weight).insert(
                            (to, from),
                            weight,
                        )
                    },
                    ..old(self)@.graph
                },
                ..old(self)@
            }),
    {
        self.graph.set_weight(from, to, weight);
    }

    /// Removes node `id` and its weights, and closes its record. Returns the
    /// node, or `None`, changing nothing, if it was absent.
    pub fn remove_node(&mut self, id: u64) -> (r: Option<SimNode>)
        requires
            old(self).wf(),
        ensures
            final(self).wf(),
            r is Some <==> old(self)@.graph.nodes.contains_key(id),
            r is None ==> final(self)@ == old(self)@,
            r is Some ==> final(self)@.history == old(self)@.history.without_node(id)
                && final(self)@.graph.nodes == old(self)@.graph.nodes.remove(id)
                && final(self)@.graph.weights == without_key(old(self)@.graph.weights, id)
                && final(self)@.steps == old(self)@.steps,
            r is Some ==> exists|i: int|
                0 <= i < old(self)@.graph.order.len() && old(self)@.graph.order[i] == id
                    && final(self)@.graph.order == old(self)@.graph.order.remove(i),
    {
        let removed = self.graph.remove_node(id);
        if removed.is_none() {
            return removed;
        }
        let closed = self.history.remove_node(id);
        proof {
            assert(old(self)@.history.open.contains_key(id));
            let s = self@;
            assert forall|k: u64| #[trigger] s.graph.nodes.contains_key(k)
                <==> s.history.open.contains_key(k) by {
                assert(old(self)@.graph.nodes.contains_key(k) <==> old(
                    self,
                )@.history.open.contains_key(k));
            }
            assert forall|k: u64| #[trigger] s.history.open.contains_key(k) implies s.history.open[k].end()
                == s.steps by {
                assert(old(self)@.history.open.contains_key(k));
            }
        }
        removed
    }

    /// One tick: every node moves by the springs of the graph as it was, each
    /// new position is recorded, and the tick counters advance.
    pub fn step(&mut self)
        requires
            old(self).wf(),
            old(self)@.steps < u64::MAX,
        ensures
            final(self).wf(),
            final(self)@ == old(self)@.ticked(),
    {
        let ghost s = self@;
        let moves = step(&mut self.graph);
        let mut i: usize = 0;
        proof {
            let g = s.graph;
            assert forall|i: int| 0 <= i < moves@.len() implies s.history.open.contains_key(
                #[trigger] moves@[i].0,
            ) by {
                assert(g.nodes.contains_key(g.order[i]));
            }
            assert(s.history == recorded(s.history, moves@.take(0)));
        }
        while i < moves.len()
            invariant
                s.wf(),
                s.steps < u64::MAX,
                moves@ == moves_of(s.graph),
                i <= moves@.len(),
                self@.graph == stepped(s.graph),
                self.steps == s.steps,
                self@.history == recorded(s.history, moves@.take(i as int)),
                forall|m: int| 0 <= m < moves@.len() ==> s.history.open.contains_key(
                    #[trigger] moves@[m].0,
                ),
            decreases moves@.len() - i,
        {
            let (id, pos) = moves[i];
            proof {
                let t = moves@.take(i as int);
                assert forall|a: int, b: int| 0 <= a < b < t.len() implies t[a].0 != t[b].0 by {
                    assert(s.graph.order[a] != s.graph.order[b]);
                }
                assert forall|m: int| 0 <= m < t.len() implies s.history.open[
                    #[trigger] t[m].0
                ].end() < u64::MAX by {
                    assert(s.history.open.contains_key(moves@[m].0));
                }
                assert forall|m: int| 0 <= m < t.len() implies s.history.open.contains_key(
                    #[trigger] t[m].0,
                ) by {
                    assert(s.history.open.contains_key(moves@[m].0));
                }
                lemma_recorded(s.history, t);
                assert(!(exists|m: int| 0 <= m < t.len() && t[m].0 == id)) by {
                    if exists|m: int| 0 <= m < t.len() && t[m].0 == id {
                        let m = choose|m: int| 0 <= m < t.len() && t[m].0 == id;
                        assert(s.graph.order[m] != s.graph.order[i as int]);
                    }
                }
                assert(s.history.open.contains_key(id));
            }
            let _ = self.history.set_position(id, pos);
            i = i + 1;
            proof {
                assert(moves@.take(i as int).drop_last() =~= moves@.take(i - 1));
            }
        }
        proof {
            assert(moves@.take(i as int) =~= moves@);
            lemma_tick_keeps(s);
            assert forall|m: int| 0 <= m < moves@.len() implies s.history.open[
                #[trigger] moves@[m].0
            ].end() < u64::MAX by {
                assert(s.history.open.contains_key(moves@[m].0));
            }
            assert forall|a: int, b: int| 0 <= a < b < moves@.len() implies moves@[a].0
                != moves@[b].0 by {
                assert(s.graph.order[a] != s.graph.order[b]);
            }
            lemma_recorded(s.history, moves@);
        }
        self.steps = self.steps + 1;
        self.history.next_step();
    }

    /// `count` ticks, one after another.
    pub fn many_steps(&mut self, count: u64)
        requires
            old(self).wf(),
            old(self)@.steps + count <= u64::MAX,
        ensures
            final(self).wf(),
            final(self)@ == run_ticks(old(self)@, count as nat),
            final(self)@.steps == old(self)@.steps + count,
            final(self)@.graph.nodes.dom() == old(self)@.graph.nodes.dom(),
            final(self)@.history.open.dom() == old(self)@.history.open.dom(),
            final(self)@.history.closed == old(self)@.history.closed,
            forall|k: u64| #[trigger]
                old(self)@.history.open.contains_key(k) ==> final(self)@.history.open[k].start
                    == old(self)@.history.open[k].start,
    {
        let ghost s = self@;
        let mut i: u64 = 0;
        proof {
            reveal(run_ticks);
        }
        while i < count
            invariant
                s.wf(),
                s.steps + count <= u64::MAX,
                i <= count,
                self@ == run_ticks(s, i as nat),
                self.wf(),
                self@.steps == s.steps + i,
            decreases count - i,
        {
            self.step();
            i = i + 1;
            proof {
                reveal(run_ticks);
                lemma_run_keeps(s, i as nat);
            }
        }
        proof {
            lemma_run_keeps(s, count as nat);
        }
    }

    /// The animation of every node's trajectory.
    pub fn render(&self) -> (r: File)
        requires
            self.wf(),
        ensures
            self@.history.rendered_by(r),
    {
        self.history.render()
    }

    /// The animation of every node's trajectory, as Lottie JSON.
    pub fn render_lottie(&self) -> (r: String)
        requires
            self.wf(),
        ensures
            exists|f: File| self@.history.rendered_by(f) && r@ == f.json(),
    {
        self.render().as_json()
    }
}

} // verus!
