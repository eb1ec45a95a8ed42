//! The force-directed layout: spring forces between every pair of nodes,
//! integrated into velocity and position once per tick.
use vstd::prelude::*;

use crate::fixed::{
    abs, clamp, clamp_to, div_toward_zero, div_trunc, isqrt, lemma_div_trunc_bound,
    lemma_sqrt_floor_le, sqrt_floor, SCALE,
};
use crate::graph::{edge_list, lemma_edge_list_members, Graph, GraphView, HasKey};
use crate::vec2d::{delta, lemma_coords_le_norm, lemma_unit_bound, norm, unit_of, within, Vec2d, POSITION_LIMIT};

verus! {

/// Bound on each coordinate of a velocity.
pub const VELOCITY_LIMIT: i64 = 1_099_511_627_776;

/// The spring constant is `1 / SPRING_DIVISOR`.
pub const SPRING_DIVISOR: i64 = 100;

/// Pixels of room per node: the natural spring length grows with the square
/// root of the node count times this.
pub const TARGET_DENSITY: i64 = 150;

/// The shortest spring, in pixels.
pub const MIN_SPRING_LENGTH: i64 = 10;

/// Velocity keeps `DAMPING_NUMERATOR / DAMPING_DENOMINATOR` of itself each tick.
pub const DAMPING_NUMERATOR: i64 = 9;

pub const DAMPING_DENOMINATOR: i64 = 10;

/// Bound on the magnitude of one spring's pull on a coordinate.
pub const PULL_LIMIT: i128 = 0x200_0000_0000_0000;

/// Bound on the magnitude of a summed acceleration coordinate.
pub const ACCEL_LIMIT: i128 = 0x400_0000_0000_0000_0000_0000_0000_0000;

/// A node of the simulation: its id, position and velocity.
#[derive(Clone, Copy, Debug, PartialEq, Eq, Structural)]
pub struct SimNode {
    pub id: u64,
    pub pos: Vec2d,
    pub velocity: Vec2d,
}

impl SimNode {
    /// Position and velocity lie inside their bounds.
    pub open spec fn wf(self) -> bool {
        within(self.pos, POSITION_LIMIT as int) && within(self.velocity, VELOCITY_LIMIT as int)
    }
}

/// The natural spring length for `count` nodes: `sqrt(count) * TARGET_DENSITY`
/// pixels, in units, rounded down.
pub open spec fn max_distance_of(count: int) -> int {
    sqrt_floor(count * (TARGET_DENSITY * SCALE) * (TARGET_DENSITY * SCALE))
}

/// The rest length of a spring of weight `w` (in pixels): the natural length
/// less the weight, but never below `MIN_SPRING_LENGTH`.
pub open spec fn spring_length(max_distance: int, w: int) -> int {
    let l = max_distance - w * SCALE;
    if l > MIN_SPRING_LENGTH * SCALE {
        l
    } else {
        MIN_SPRING_LENGTH * SCALE
    }
}

/// The acceleration that the spring to `sibling` gives `node`: the spring
/// force `(distance - rest length) / SPRING_DIVISOR` along the unit direction
/// towards the sibling. Coincident nodes have no direction and pull nothing.
pub open spec fn pull(node: SimNode, sibling: SimNode, w: i32, max_distance: int) -> (int, int) {
    let d = delta(node.pos, sibling.pos);
    let force = div_trunc(norm(d) - spring_length(max_distance, w as int), SPRING_DIVISOR as int);
    let dir = unit_of(d);
    (div_trunc(dir.x * force, SCALE as int), div_trunc(dir.y * force, SCALE as int))
}

/// The sum of the pulls of every listed sibling on `node`.
pub open spec fn pull_sum(node: SimNode, edges: Seq<(SimNode, i32)>, max_distance: int) -> (int, int)
    decreases edges.len(),
{
    if edges.len() == 0 {
        (0, 0)
    } else {
        let rest = pull_sum(node, edges.drop_last(), max_distance);
        let p = pull(node, edges.last().0, edges.last().1, max_distance);
        (rest.0 + p.0, rest.1 + p.1)
    }
}

/// The acceleration of `node` in graph `g`: the pulls of all other nodes.
pub open spec fn acceleration_in(g: GraphView, node: SimNode) -> (int, int) {
    pull_sum(node, g.edges(node.id), max_distance_of(g.order.len() as int))
}

/// The new velocity coordinate: old velocity plus acceleration, damped,
/// rounded toward zero and held inside the velocity bound.
pub open spec fn damped(v: int, a: int) -> int {
    clamp(
        div_trunc((v + a) * DAMPING_NUMERATOR, DAMPING_DENOMINATOR as int),
        VELOCITY_LIMIT as int,
    )
}

/// `node` after one tick under acceleration `a`: the damped velocity is added
/// to the position, which stays inside the position bound.
pub open spec fn moved(node: SimNode, a: (int, int)) -> SimNode {
    let vx = damped(node.velocity.x as int, a.0);
    let vy = damped(node.velocity.y as int, a.1);
    SimNode {
        id: node.id,
        pos: Vec2d {
            x: clamp(node.pos.x + vx, POSITION_LIMIT as int) as i64,
            y: clamp(node.pos.y + vy, POSITION_LIMIT as int) as i64,
        },
        velocity: Vec2d { x: vx as i64, y: vy as i64 },
    }
}

/// The graph after one tick: every node moved by the acceleration that the
/// graph as it was before the tick gives it.
pub open spec fn stepped(g: GraphView) -> GraphView {
    GraphView {
        nodes: Map::new(
            |k: u64| g.nodes.contains_key(k),
            |k: u64| moved(g.nodes[k], acceleration_in(g, g.nodes[k])),
        ),
        order: g.order,
        weights: g.weights,
    }
}

/// The new position of each node after one tick, in the graph's order.
pub open spec fn moves_of(g: GraphView) -> Seq<(u64, Vec2d)> {
    g.order.map_values(|k: u64| (k, stepped(g).nodes[k].pos))
}

impl HasKey for SimNode {
    open spec fn spec_key(&self) -> u64 {
        self.id
    }

    fn key(&self) -> (r: u64) {
        self.id
    }
}

/// The natural spring length for `count` nodes, in units.
pub fn max_distance(count: usize) -> (r: i64)
    ensures
        r == max_distance_of(count as int),
        0 <= r <= 0x100_0000_0000_0000,
{
    let unit: u128 = (TARGET_DENSITY as u128) * (SCALE as u128);
    let n = (count as u128) * (unit * unit);
    proof {
        assert(unit * unit < 0x1_0000_0000_0000);
        assert(n <= 0x1_0000_0000_0000_0000_0000_0000_0000) by (nonlinear_arith)
            requires
                n == count * (unit * unit),
                count < 0x1_0000_0000_0000_0000int,
                unit * unit < 0x1_0000_0000_0000,
        ;
        lemma_sqrt_floor_le(n as int, 0x100_0000_0000_0000);
        assert(n as int == count as int * (TARGET_DENSITY * SCALE) * (TARGET_DENSITY * SCALE));
    }
    isqrt(n) as i64
}

proof fn lemma_scaled_pull_bound(d: int, force: int)
    requires
        -SCALE <= d <= SCALE,
    ensures
        abs(div_trunc(d * force, SCALE as int)) <= abs(force),
{
    lemma_div_trunc_bound(d * force, SCALE as int);
    assert(abs(d * force) <= SCALE * abs(force)) by (nonlinear_arith)
        requires
            -SCALE <= d <= SCALE,
    ;
    assert(abs(d * force) / (SCALE as int) <= abs(force)) by (nonlinear_arith)
        requires
            abs(d * force) <= SCALE * abs(force),
    ;
}

/// The acceleration that the spring to `sibling`, of weight `weight`, gives
/// `node`.
pub fn spring_pull(node: &SimNode, sibling: &SimNode, weight: i32, max_distance: i64) -> (r: (
    i128,
    i128,
))
    requires
        node.wf(),
        sibling.wf(),
        0 <= max_distance <= 0x100_0000_0000_0000,
    ensures
        r.0 == pull(*node, *sibling, weight, max_distance as int).0,
        r.1 == pull(*node, *sibling, weight, max_distance as int).1,
        -PULL_LIMIT <= r.0 <= PULL_LIMIT,
        -PULL_LIMIT <= r.1 <= PULL_LIMIT,
{
    let rest = max_distance as i128 - weight as i128 * SCALE as i128;
    let shortest = MIN_SPRING_LENGTH as i128 * SCALE as i128;
    let length = if rest > shortest {
        rest
    } else {
        shortest
    };
    let dist = node.pos.distance(sibling.pos) as i128;
    let force = div_toward_zero(dist - length, SPRING_DIVISOR as i128);
    let dir = node.pos.minus(sibling.pos).as_unit();
    proof {
        lemma_div_trunc_bound(dist - length, SPRING_DIVISOR as int);
        lemma_scaled_pull_bound(dir.x as int, force as int);
        lemma_scaled_pull_bound(dir.y as int, force as int);
    }
    let x = div_toward_zero(dir.x as i128 * force, SCALE as i128);
    let y = div_toward_zero(dir.y as i128 * force, SCALE as i128);
    (x, y)
}

/// The acceleration of `node` from the springs to every other node of `graph`.
pub fn node_acceleration(graph: &Graph, node: &SimNode) -> (r: (i128, i128))
    requires
        graph.wf(),
        node.wf(),
    ensures
        r.0 == acceleration_in(graph@, *node).0,
        r.1 == acceleration_in(graph@, *node).1,
        -ACCEL_LIMIT <= r.0 <= ACCEL_LIMIT,
        -ACCEL_LIMIT <= r.1 <= ACCEL_LIMIT,
{
    let edges = graph.edges(node.id);
    let max_distance = max_distance(graph.node_count());
    let ghost g = graph@;
    proof {
        lemma_edge_list_members(g, node.id, g.order);
        g.order.unique_seq_to_set();
        assert(g.order.to_set() =~= g.nodes.dom());
        assert forall|j: int| 0 <= j < edges@.len() implies (#[trigger] edges@[j]).0.wf() by {
            let m = choose|m: int|
                0 <= m < g.order.len() && g.order[m] != node.id && #[trigger] edge_list(
                    g,
                    node.id,
                    g.order,
                )[j] == (g.nodes[g.order[m]], g.weight(node.id, g.order[m]));
            assert(g.nodes.contains_key(g.order[m]));
        }
    }
    let mut x: i128 = 0;
    let mut y: i128 = 0;
    let mut i: usize = 0;
    while i < edges.len()
        invariant
            g.wf(),
            node.wf(),
            edges@ == g.edges(node.id),
            0 <= max_distance <= 0x100_0000_0000_0000,
            max_distance == max_distance_of(g.order.len() as int),
            i <= edges@.len(),
            edges@.len() <= g.order.len(),
            g.order.len() <= usize::MAX,
            forall|j: int| 0 <= j < edges@.len() ==> (#[trigger] edges@[j]).0.wf(),
            (x as int, y as int) == pull_sum(*node, edges@.take(i as int), max_distance as int),
            -(i * PULL_LIMIT) <= x <= i * PULL_LIMIT,
            -(i * PULL_LIMIT) <= y <= i * PULL_LIMIT,
        decreases edges@.len() - i,
    {
        let (sibling, weight) = edges[i];
        proof {
            assert(edges@[i as int].0.wf());
            assert(i * PULL_LIMIT + PULL_LIMIT < 0x4000_0000_0000_0000_0000_0000_0000_0000)
                by (nonlinear_arith)
                requires
                    i < 0x1_0000_0000_0000_0000int,
            ;
        }
        let (px, py) = spring_pull(node, &sibling, weight, max_distance);
        x = x + px;
        y = y + py;
        i = i + 1;
        proof {
            assert(edges@.take(i as int).drop_last() =~= edges@.take(i - 1));
            assert(i * PULL_LIMIT == (i - 1) * PULL_LIMIT + PULL_LIMIT) by (nonlinear_arith);
        }
    }
    proof {
        assert(edges@.take(i as int) =~= edges@);
        assert(edges@.len() * PULL_LIMIT <= ACCEL_LIMIT) by (nonlinear_arith)
            requires
                edges@.len() <= 0x1_0000_0000_0000_0000int,
        ;
        assert(i * PULL_LIMIT <= ACCEL_LIMIT);
    }
    (x, y)
}

/// Damping scales a velocity coordinate's magnitude by exactly
/// `DAMPING_NUMERATOR / DAMPING_DENOMINATOR`, rounded down, up to the velocity
/// bound; so it never exceeds the magnitude of the undamped sum.
pub proof fn lemma_damped_bound(v: int, a: int)
    ensures
        abs(damped(v, a)) == if abs(v + a) * DAMPING_NUMERATOR / (DAMPING_DENOMINATOR as int)
            <= VELOCITY_LIMIT {
            abs(v + a) * DAMPING_NUMERATOR / (DAMPING_DENOMINATOR as int)
        } else {
            VELOCITY_LIMIT as int
        },
        abs(damped(v, a)) <= abs(v + a),
{
    let s = (v + a) * DAMPING_NUMERATOR;
    lemma_div_trunc_bound(s, DAMPING_DENOMINATOR as int);
    assert(abs(s) == abs(v + a) * 9) by (nonlinear_arith)
        requires
            s == (v + a) * 9,
    ;
    assert(abs(s) / (DAMPING_DENOMINATOR as int) <= abs(v + a)) by (nonlinear_arith)
        requires
            abs(s) == abs(v + a) * 9,
    ;
}

/// With no force acting on a node, a tick never raises its speed: each
/// velocity coordinate keeps or loses magnitude. More generally each new
/// velocity coordinate is the old one plus the acceleration, its magnitude
/// scaled by the damping factor and rounded down.
pub proof fn lemma_velocity_non_increasing(node: SimNode, a: (int, int))
    ensures
        abs(moved(node, a).velocity.x as int) == abs(damped(node.velocity.x as int, a.0)),
        abs(moved(node, a).velocity.y as int) == abs(damped(node.velocity.y as int, a.1)),
        abs(moved(node, a).velocity.x as int) <= abs(node.velocity.x + a.0),
        abs(moved(node, a).velocity.y as int) <= abs(node.velocity.y + a.1),
        a == (0int, 0int) ==> abs(moved(node, a).velocity.x as int) <= abs(
            node.velocity.x as int,
        ) && abs(moved(node, a).velocity.y as int) <= abs(node.velocity.y as int),
{
    lemma_damped_bound(node.velocity.x as int, a.0);
    lemma_damped_bound(node.velocity.y as int, a.1);
}

/// One tick of integration: the acceleration is added to the velocity, which is
/// damped, and the velocity to the position.
pub fn move_node(node: SimNode, accel: (i128, i128)) -> (r: SimNode)
    requires
        node.wf(),
        -ACCEL_LIMIT <= accel.0 <= ACCEL_LIMIT,
        -ACCEL_LIMIT <= accel.1 <= ACCEL_LIMIT,
    ensures
        r == moved(node, (accel.0 as int, accel.1 as int)),
        r.wf(),
{
    let vx = clamp_to(
        div_toward_zero(
            (node.velocity.x as i128 + accel.0) * DAMPING_NUMERATOR as i128,
            DAMPING_DENOMINATOR as i128,
        ),
        VELOCITY_LIMIT,
    );
    let vy = clamp_to(
        div_toward_zero(
            (node.velocity.y as i128 + accel.1) * DAMPING_NUMERATOR as i128,
            DAMPING_DENOMINATOR as i128,
        ),
        VELOCITY_LIMIT,
    );
    let x = clamp_to(node.pos.x as i128 + vx as i128, POSITION_LIMIT);
    let y = clamp_to(node.pos.y as i128 + vy as i128, POSITION_LIMIT);
    SimNode { id: node.id, pos: Vec2d { x, y }, velocity: Vec2d { x: vx, y: vy } }
}

/// The first phase of a tick: the acceleration of every node, in the graph's
/// order, all computed from the same positions.
pub fn accelerations(graph: &Graph) -> (r: Vec<(u64, i128, i128)>)
    requires
        graph.wf(),
    ensures
        r@.len() == graph@.order.len(),
        forall|i: int|
            0 <= i < r@.len() ==> {
                let k = graph@.order[i];
                let a = acceleration_in(graph@, graph@.nodes[k]);
                &&& (#[trigger] r@[i]).0 == k
                &&& r@[i].1 == a.0
                &&& r@[i].2 == a.1
                &&& -ACCEL_LIMIT <= r@[i].1 <= ACCEL_LIMIT
                &&& -ACCEL_LIMIT <= r@[i].2 <= ACCEL_LIMIT
            },
{
    let nodes = graph.nodes();
    let ghost g = graph@;
    let mut r: Vec<(u64, i128, i128)> = Vec::new();
    let mut i: usize = 0;
    while i < nodes.len()
        invariant
            g == graph@,
            g.wf(),
            nodes@ == g.order.map_values(|k: u64| g.nodes[k]),
            i <= nodes@.len(),
            r@.len() == i,
            forall|j: int|
                0 <= j < i ==> {
                    let k = g.order[j];
                    let a = acceleration_in(g, g.nodes[k]);
                    &&& (#[trigger] r@[j]).0 == k
                    &&& r@[j].1 == a.0
                    &&& r@[j].2 == a.1
                    &&& -ACCEL_LIMIT <= r@[j].1 <= ACCEL_LIMIT
                    &&& -ACCEL_LIMIT <= r@[j].2 <= ACCEL_LIMIT
                },
        decreases nodes@.len() - i,
    {
        let node = nodes[i];
        assert(g.nodes.contains_key(g.order[i as int]));
        let (x, y) = node_acceleration(graph, &node);
        r.push((node.id, x, y));
        i = i + 1;
    }
    r
}

/// One tick of the layout. All accelerations are computed from the positions
/// before the tick, then every node moves. Returns each node's new position,
/// in the graph's order.
pub fn step(graph: &mut Graph) -> (r: Vec<(u64, Vec2d)>)
    requires
        old(graph).wf(),
    ensures
        final(graph).wf(),
        final(graph)@ == stepped(old(graph)@),
        r@ == moves_of(old(graph)@),
{
    let accels = accelerations(graph);
    let ghost o = graph@;
    let mut r: Vec<(u64, Vec2d)> = Vec::new();
    let mut i: usize = 0;
    while i < accels.len()
        invariant
            o.wf(),
            graph.wf(),
            accels@.len() == o.order.len(),
            forall|j: int|
                0 <= j < accels@.len() ==> {
                    let k = o.order[j];
                    let a = acceleration_in(o, o.nodes[k]);
                    &&& (#[trigger] accels@[j]).0 == k
                    &&& accels@[j].1 == a.0
                    &&& accels@[j].2 == a.1
                    &&& -ACCEL_LIMIT <= accels@[j].1 <= ACCEL_LIMIT
                    &&& -ACCEL_LIMIT <= accels@[j].2 <= ACCEL_LIMIT
                },
            i <= accels@.len(),
            graph@.order == o.order,
            graph@.weights == o.weights,
            graph@.nodes.dom() == o.nodes.dom(),
            forall|m: int|
                0 <= m < i ==> graph@.nodes[#[trigger] o.order[m]] == stepped(o).nodes[o.order[m]],
            forall|m: int|
                i <= m < o.order.len() ==> graph@.nodes[#[trigger] o.order[m]] == o.nodes[o.order[m]],
            r@ == moves_of(o).take(i as int),
        decreases accels@.len() - i,
    {
        let (id, ax, ay) = accels[i];
        assert(o.nodes.contains_key(o.order[i as int]));
        let node = *graph.get_node(id).unwrap();
        let next = move_node(node, (ax, ay));
        let ghost before = graph@;
        graph.add_node(next);
        r.push((id, next.pos));
        proof {
            assert forall|m: int| 0 <= m < i + 1 implies graph@.nodes[#[trigger] o.order[m]]
                == stepped(o).nodes[o.order[m]] by {
                if m < i {
                    assert(o.order[m] != o.order[i as int]);
                }
            }
            assert forall|m: int| i + 1 <= m < o.order.len() implies graph@.nodes[
                #[trigger] o.order[m]
            ] == o.nodes[o.order[m]] by {
                assert(o.order[m] != o.order[i as int]);
            }
            assert(graph@.nodes.dom() =~= o.nodes.dom());
            assert(r@ =~= moves_of(o).take(i + 1));
        }
        i = i + 1;
    }
    proof {
        assert(r@ =~= moves_of(o));
        assert forall|k: u64| o.nodes.contains_key(k) implies graph@.nodes[k] == stepped(o).nodes[k] by {
            assert(o.order.contains(k));
            let m = choose|m: int| 0 <= m < o.order.len() && o.order[m] == k;
            assert(graph@.nodes[o.order[m]] == stepped(o).nodes[o.order[m]]);
        }
        assert(graph@.nodes =~= stepped(o).nodes);
    }
    r
}

/// Every node of a well-formed graph stays well formed and keeps its id over
/// a tick.
pub proof fn lemma_moved_wf(g: GraphView, k: u64)
    requires
        g.wf(),
        g.nodes.contains_key(k),
    ensures
        stepped(g).nodes[k].id == k,
        stepped(g).nodes[k].wf(),
{
    let a = acceleration_in(g, g.nodes[k]);
    let n = moved(g.nodes[k], a);
    assert(n.wf());
}

/// Rounding toward zero commutes with negation.
proof fn lemma_div_trunc_odd(a: int, b: int)
    requires
        b > 0,
    ensures
        div_trunc(-a, b) == -div_trunc(a, b),
{
}

/// The pull of `b` on `a` is the opposite of the pull of `a` on `b`.
proof fn lemma_pull_opposite(a: SimNode, b: SimNode, w: i32, max_distance: int)
    requires
        a.wf(),
        b.wf(),
    ensures
        pull(b, a, w, max_distance).0 == -pull(a, b, w, max_distance).0,
        pull(b, a, w, max_distance).1 == -pull(a, b, w, max_distance).1,
{
    let d = delta(a.pos, b.pos);
    let e = delta(b.pos, a.pos);
    assert(e.x == -d.x && e.y == -d.y);
    assert(e.x * e.x + e.y * e.y == d.x * d.x + d.y * d.y) by (nonlinear_arith)
        requires
            e.x == -d.x,
            e.y == -d.y,
    ;
    assert(norm(e) == norm(d));
    lemma_coords_le_norm(d);
    let len = norm(d);
    if len != 0 {
        assert(e.x * SCALE == -(d.x * SCALE));
        assert(e.y * SCALE == -(d.y * SCALE));
        lemma_div_trunc_odd(d.x * SCALE, len);
        lemma_div_trunc_odd(d.y * SCALE, len);
        lemma_unit_bound(d);
    }
    let u = unit_of(d);
    let v = unit_of(e);
    assert(v.x == -u.x && v.y == -u.y);
    let force = div_trunc(norm(d) - spring_length(max_distance, w as int), SPRING_DIVISOR as int);
    assert(v.x * force == -(u.x * force)) by (nonlinear_arith)
        requires
            v.x == -u.x,
    ;
    assert(v.y * force == -(u.y * force)) by (nonlinear_arith)
        requires
            v.y == -u.y,
    ;
    lemma_div_trunc_odd(u.x * force, SCALE as int);
    lemma_div_trunc_odd(u.y * force, SCALE as int);
}

/// Two nodes alone in a graph pull each other equally and oppositely: if
/// their velocities are opposite before a tick, they are opposite after it,
/// so two nodes that start at rest always move in mirror image.
pub proof fn lemma_pair_mirror(g: GraphView)
    requires
        g.wf(),
        g.order.len() == 2,
        g.nodes[g.order[0]].velocity.x == -g.nodes[g.order[1]].velocity.x,
        g.nodes[g.order[0]].velocity.y == -g.nodes[g.order[1]].velocity.y,
    ensures
        stepped(g).nodes[g.order[0]].velocity.x == -stepped(g).nodes[g.order[1]].velocity.x,
        stepped(g).nodes[g.order[0]].velocity.y == -stepped(g).nodes[g.order[1]].velocity.y,
{
    let ka = g.order[0];
    let kb = g.order[1];
    let a = g.nodes[ka];
    let b = g.nodes[kb];
    assert(g.nodes.contains_key(ka));
    assert(g.nodes.contains_key(kb));
    assert(ka != kb);
    assert(a.id == ka && b.id == kb);
    let md = max_distance_of(2);
    reveal_with_fuel(edge_list, 3);
    assert(g.order.drop_last().drop_last() =~= Seq::<u64>::empty());
    assert(g.order.drop_last() =~= seq![ka]);
    assert(g.edges(ka) =~= seq![(b, g.weight(ka, kb))]);
    assert(g.edges(kb) =~= seq![(a, g.weight(kb, ka))]);
    crate::graph::lemma_weight_symmetric(g, ka, kb);
    let w = g.weight(ka, kb);
    assert(seq![(b, w)].drop_last() =~= Seq::<(SimNode, i32)>::empty());
    assert(seq![(a, w)].drop_last() =~= Seq::<(SimNode, i32)>::empty());
    reveal_with_fuel(pull_sum, 2);
    let pa = pull(a, b, w, md);
    let pb = pull(b, a, w, md);
    assert(acceleration_in(g, a) == (0 + pa.0, 0 + pa.1));
    assert(acceleration_in(g, b) == (0 + pb.0, 0 + pb.1));
    lemma_pull_opposite(a, b, w, md);
    lemma_div_trunc_odd((a.velocity.x + pa.0) * DAMPING_NUMERATOR, DAMPING_DENOMINATOR as int);
    lemma_div_trunc_odd((a.velocity.y + pa.1) * DAMPING_NUMERATOR, DAMPING_DENOMINATOR as int);
    assert((b.velocity.x + pb.0) * DAMPING_NUMERATOR == -((a.velocity.x + pa.0)
        * DAMPING_NUMERATOR));
    assert((b.velocity.y + pb.1) * DAMPING_NUMERATOR == -((a.velocity.y + pa.1)
        * DAMPING_NUMERATOR));
}

} // verus!
