//! A spring layout of a weighted, complete graph, simulated tick by tick,
//! with each node's trajectory recorded as run-length keyframes and written
//! out as a Lottie animation.
//!
//! Positions, velocities and lengths are integers counting `1 / 65536` of a
//! pixel (see `fixed::SCALE`), so every tick is exact and reproducible.
//!
//! - `graph`: the weighted graph, complete over its nodes.
//! - `layout`: the spring forces and the two-phase tick.
//! - `history`: the trajectory recorder.
//! - `lottie`: the scene description and its JSON text.
//! - `system`: the simulation that drives all three.
use vstd::prelude::*;

pub mod fixed;
mod rng;
pub mod vec2d;
mod table;
pub mod graph;
pub mod layout;
pub mod lottie;
pub mod text;
pub mod history;
pub mod system;

pub use system::System;

use system::SystemView;

verus! {

/// Every key in `lo..hi` has an open record that started at tick `t`.
pub open spec fn recorded_from(s: SystemView, lo: u64, hi: u64, t: int) -> bool {
    forall|k: u64|
        lo <= k < hi ==> s.history.open.contains_key(k) && #[trigger] s.history.open[k].start
            == t
}

/// A demonstration run: five nodes, then three more, with weights changed
/// between runs of ticks. Returns the simulation after its 2200 ticks: nodes
/// 0 to 4 recorded from tick 0, nodes 5, 6 and 7 from ticks 900, 1050 and
/// 1350, none removed.
pub fn test1() -> (r: System)
    ensures
        r.wf(),
        r@.steps == 2200,
        forall|k: u64| #[trigger] r@.history.open.contains_key(k) <==> k < 8,
        forall|k: u64| #[trigger] r@.graph.nodes.contains_key(k) <==> k < 8,
        r@.history.closed.len() == 0,
        forall|k: u64| k < 5 ==> #[trigger] r@.history.open[k].start == 0,
        r@.history.open[5].start == 900,
        r@.history.open[6].start == 1050,
        r@.history.open[7].start == 1350,
{
    let mut system = System::new();
    system.add_node(0, [181, 137, 0]);
    system.add_node(1, [203, 75, 22]);
    system.add_node(2, [220, 50, 47]);
    system.add_node(3, [211, 54, 130]);
    system.add_node(4, [108, 113, 196]);
    assert(recorded_from(system@, 0, 5, 0));
    system.many_steps(150);
    assert(recorded_from(system@, 0, 5, 0));
    system.set_weight(0, 1, 50);
    system.many_steps(150);
    assert(recorded_from(system@, 0, 5, 0));
    system.set_weight(1, 2, 200);
    system.many_steps(150);
    assert(recorded_from(system@, 0, 5, 0));
    system.set_weight(1, 3, 70);
    system.many_steps(150);
    assert(recorded_from(system@, 0, 5, 0));
    system.set_weight(2, 4, 5000);
    system.many_steps(150);
    assert(recorded_from(system@, 0, 5, 0));
    system.set_weight(0, 3, 200);
    system.many_steps(150);
    assert(recorded_from(system@, 0, 5, 0));
    system.add_node(5, [38, 139, 210]);
    assert(recorded_from(system@, 0, 5, 0));
    assert(recorded_from(system@, 5, 6, 900));
    system.many_steps(150);
    assert(recorded_from(system@, 0, 5, 0));
    assert(recorded_from(system@, 5, 6, 900));
    system.add_node(6, [42, 161, 152]);
    assert(recorded_from(system@, 0, 5, 0));
    assert(recorded_from(system@, 5, 6, 900));
    assert(recorded_from(system@, 6, 7, 1050));
    system.many_steps(150);
    assert(recorded_from(system@, 0, 5, 0));
    assert(recorded_from(system@, 5, 6, 900));
    assert(recorded_from(system@, 6, 7, 1050));
    system.set_weight(5, 6, 60);
    system.many_steps(150);
    assert(recorded_from(system@, 0, 5, 0));
    assert(recorded_from(system@, 5, 6, 900));
    assert(recorded_from(system@, 6, 7, 1050));
    system.add_node(7, [133, 153, 0]);
    assert(recorded_from(system@, 0, 5, 0));
    assert(recorded_from(system@, 5, 6, 900));
    assert(recorded_from(system@, 6, 7, 1050));
    assert(recorded_from(system@, 7, 8, 1350));
    system.many_steps(150);
    assert(recorded_from(system@, 0, 5, 0));
    assert(recorded_from(system@, 5, 6, 900));
    assert(recorded_from(system@, 6, 7, 1050));
    assert(recorded_from(system@, 7, 8, 1350));
    system.set_weight(6, 7, 200);
    system.many_steps(150);
    assert(recorded_from(system@, 0, 5, 0));
    assert(recorded_from(system@, 5, 6, 900));
    assert(recorded_from(system@, 6, 7, 1050));
    assert(recorded_from(system@, 7, 8, 1350));
    system.set_weight(5, 7, 50);
    system.many_steps(150);
    assert(recorded_from(system@, 0, 5, 0));
    assert(recorded_from(system@, 5, 6, 900));
    assert(recorded_from(system@, 6, 7, 1050));
    assert(recorded_from(system@, 7, 8, 1350));
    system.set_weight(1, 7, 5000);
    system.many_steps(400);
    assert(recorded_from(system@, 0, 5, 0));
    assert(recorded_from(system@, 5, 6, 900));
    assert(recorded_from(system@, 6, 7, 1050));
    assert(recorded_from(system@, 7, 8, 1350));
    proof {
        assert forall|k: u64| #[trigger] system@.history.open.contains_key(k) <==> k < 8 by {
            if k < 8 {
    assert(system@.history.open.contains_key(k));
            }
        }
    }
    system
}

} // verus!
