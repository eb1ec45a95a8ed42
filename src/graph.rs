//! An undirected, complete, weighted graph keyed by node id.
use vstd::prelude::*;

use crate::layout::SimNode;
use crate::table::{node_entries, weight_entries, NodeTable, WeightTable};

verus! {

/// A value that carries the key it is stored under.
pub trait HasKey {
    spec fn spec_key(&self) -> u64;

    /// The key of this value; a cheap field read.
    fn key(&self) -> (r: u64)
        ensures
            r == self.spec_key(),
    ;
}

/// What a graph holds: its nodes by key, the keys in the order they were
/// first added, and the weights set for ordered pairs of keys.
pub ghost struct GraphView {
    pub nodes: Map<u64, SimNode>,
    pub order: Seq<u64>,
    pub weights: Map<(u64, u64), i32>,
}

/// The weight of the pair `(a, b)` in a weight map: the default weight `0`
/// for a key paired with itself, else the stored one, else `0`.
pub open spec fn weight_in(w: Map<(u64, u64), i32>, a: u64, b: u64) -> i32 {
    if a == b {
        0
    } else if w.contains_key((a, b)) {
        w[(a, b)]
    } else {
        0
    }
}

/// The weight map with every pair that involves `k` taken out.
pub open spec fn without_key(w: Map<(u64, u64), i32>, k: u64) -> Map<(u64, u64), i32> {
    Map::new(|p: (u64, u64)| w.contains_key(p) && p.0 != k && p.1 != k, |p: (u64, u64)| w[p])
}

/// For each key of `ks` other than `key`, its node and its weight towards `key`.
pub open spec fn edge_list(g: GraphView, key: u64, ks: Seq<u64>) -> Seq<(SimNode, i32)>
    decreases ks.len(),
{
    if ks.len() == 0 {
        Seq::empty()
    } else {
        let rest = edge_list(g, key, ks.drop_last());
        let k = ks.last();
        if k == key {
            rest
        } else {
            rest.push((g.nodes[k], g.weight(key, k)))
        }
    }
}

impl GraphView {
    /// The graph's invariant: `order` lists each node once; every node is
    /// stored under its own id and is well formed; weights are symmetric and
    /// only join two distinct present nodes.
    pub open spec fn wf(self) -> bool {
        &&& self.order.no_duplicates()
        &&& forall|i: int| 0 <= i < self.order.len() ==> self.nodes.contains_key(#[trigger] self.order[i])
        &&& forall|k: u64| self.nodes.contains_key(k) ==> self.order.contains(k)
        &&& forall|k: u64| #[trigger] self.nodes.contains_key(k) ==> self.nodes[k].id == k && self.nodes[k].wf()
        &&& forall|a: u64, b: u64| #[trigger] self.weights.contains_key((a, b)) ==> {
            &&& self.weights.contains_key((b, a))
            &&& self.weights[(b, a)] == self.weights[(a, b)]
            &&& self.nodes.contains_key(a)
            &&& self.nodes.contains_key(b)
        }
        &&& forall|a: u64, b: u64| #[trigger] self.weights.contains_key((a, b)) ==> a != b
    }

    /// The weight between `a` and `b`; `0` where none was set.
    pub open spec fn weight(self, a: u64, b: u64) -> i32 {
        weight_in(self.weights, a, b)
    }

    /// Every node other than `key`, in order, with its weight towards `key`.
    pub open spec fn edges(self, key: u64) -> Seq<(SimNode, i32)> {
        edge_list(self, key, self.order)
    }

    /// The graph after `node` is added: stored under its key, its key appended
    /// to the order if new, weights unchanged.
    pub open spec fn added(self, node: SimNode) -> GraphView {
        GraphView {
            nodes: self.nodes.insert(node.id, node),
            order: if self.nodes.contains_key(node.id) {
                self.order
            } else {
                self.order.push(node.id)
            },
            weights: self.weights,
        }
    }
}

/// Each entry of an edge list is the node of some key of `ks` other than
/// `key`, with its weight.
pub proof fn lemma_edge_list_members(g: GraphView, key: u64, ks: Seq<u64>)
    ensures
        edge_list(g, key, ks).len() <= ks.len(),
        forall|i: int|
            0 <= i < edge_list(g, key, ks).len() ==> exists|m: int|
                0 <= m < ks.len() && ks[m] != key && #[trigger] edge_list(g, key, ks)[i] == (
                    g.nodes[ks[m]],
                    g.weight(key, ks[m]),
                ),
    decreases ks.len(),
{
    if ks.len() > 0 {
        let rest = ks.drop_last();
        lemma_edge_list_members(g, key, rest);
        assert forall|i: int| 0 <= i < edge_list(g, key, ks).len() implies exists|m: int|
            0 <= m < ks.len() && ks[m] != key && #[trigger] edge_list(g, key, ks)[i] == (
                g.nodes[ks[m]],
                g.weight(key, ks[m]),
            ) by {
            if i < edge_list(g, key, rest).len() {
                let m = choose|m: int|
                    0 <= m < rest.len() && rest[m] != key && #[trigger] edge_list(g, key, rest)[i]
                        == (g.nodes[rest[m]], g.weight(key, rest[m]));
                assert(ks[m] == rest[m]);
            } else {
                assert(ks[ks.len() - 1] != key);
            }
        }
    }
}

/// Weights are symmetric: in every well-formed graph, which every sequence of
/// operations keeps, the weight from `a` to `b` is the weight from `b` to `a`.
pub proof fn lemma_weight_symmetric(g: GraphView, a: u64, b: u64)
    requires
        g.wf(),
    ensures
        g.weight(a, b) == g.weight(b, a),
{
    if g.weights.contains_key((a, b)) {
        assert(g.weights.contains_key((b, a)));
    } else if g.weights.contains_key((b, a)) {
        assert(g.weights.contains_key((a, b)));
    }
}

/// A key paired with itself has the default weight `0`, whatever was set.
pub proof fn lemma_self_pair_default(g: GraphView, a: u64)
    ensures
        g.weight(a, a) == 0,
{
}

/// A key that is not in the graph has the default weight `0` towards every key,
/// in both directions.
pub proof fn lemma_absent_key_default(g: GraphView, k: u64, j: u64)
    requires
        g.wf(),
        !g.nodes.contains_key(k),
    ensures
        g.weight(k, j) == 0,
        g.weight(j, k) == 0,
{
    if g.weights.contains_key((k, j)) {
        assert(g.nodes.contains_key(k));
    }
    if g.weights.contains_key((j, k)) {
        assert(g.nodes.contains_key(k));
    }
}

/// Right after a new node is added, its weight towards every key is the default
/// `0`, in both directions.
pub proof fn lemma_default_after_add(g: GraphView, node: SimNode, j: u64)
    requires
        g.wf(),
        !g.nodes.contains_key(node.id),
    ensures
        g.added(node).weight(node.id, j) == 0,
        g.added(node).weight(j, node.id) == 0,
{
    lemma_absent_key_default(g, node.id, j);
}

/// Once a key is gone from the graph, as `remove_node` leaves it, no edge
/// list names its node and its weight towards every key is `0` again.
pub proof fn lemma_removed_key_cascade(g: GraphView, k: u64, j: u64)
    requires
        g.wf(),
        !g.nodes.contains_key(k),
    ensures
        forall|i: int| 0 <= i < g.edges(j).len() ==> (#[trigger] g.edges(j)[i]).0.id != k,
        g.weight(j, k) == 0,
        g.weight(k, j) == 0,
{
    lemma_absent_key_default(g, k, j);
    lemma_edge_list_members(g, j, g.order);
    assert forall|i: int| 0 <= i < g.edges(j).len() implies (#[trigger] g.edges(j)[i]).0.id
        != k by {
        let m = choose|m: int|
            0 <= m < g.order.len() && g.order[m] != j && #[trigger] edge_list(g, j, g.order)[i]
                == (g.nodes[g.order[m]], g.weight(j, g.order[m]));
        assert(g.nodes.contains_key(g.order[m]));
    }
}

/// An undirected graph in which every pair of nodes is joined by an edge whose
/// weight is `0` until set.
pub struct Graph {
    nodes: NodeTable,
    order: Vec<u64>,
    weights: WeightTable,
}

impl View for Graph {
    type V = GraphView;

    closed spec fn view(&self) -> GraphView {
        GraphView {
            nodes: node_entries(self.nodes),
            order: self.order@,
            weights: weight_entries(self.weights),
        }
    }
}

impl Graph {
    pub open spec fn wf(&self) -> bool {
        self@.wf()
    }

    /// An empty graph.
    pub fn new() -> (r: Graph)
        ensures
            r.wf(),
            r@.nodes == Map::<u64, SimNode>::empty(),
            r@.order == Seq::<u64>::empty(),
            r@.weights == Map::<(u64, u64), i32>::empty(),
    {
        let r = Graph { nodes: NodeTable::new(), order: Vec::new(), weights: WeightTable::new() };
        assert(r@.nodes =~= Map::empty());
        assert(r@.weights =~= Map::empty());
        r
    }

    /// Adds a node under its key, replacing a node with the same key. Weights
    /// are left as they are.
    pub fn add_node(&mut self, node: SimNode)
        requires
            old(self).wf(),
            node.wf(),
        ensures
            final(self).wf(),
            final(self)@ == old(self)@.added(node),
    {
        let key = node.key();
        let previous = self.nodes.insert(key, node);
        if previous.is_none() {
            self.order.push(key);
        }
        proof {
            let g = self@;
            let o = old(self)@;
            assert forall|i: int| 0 <= i < g.order.len() implies g.nodes.contains_key(
                #[trigger] g.order[i],
            ) by {
                if i < o.order.len() {
                    assert(o.nodes.contains_key(o.order[i]));
                }
            }
            assert forall|k: u64| g.nodes.contains_key(k) implies g.order.contains(k) by {
                if k == key && previous.is_none() {
                    assert(g.order[g.order.len() - 1] == k);
                } else {
                    assert(o.nodes.contains_key(k));
                    assert(o.order.contains(k));
                    let j = choose|j: int| 0 <= j < o.order.len() && o.order[j] == k;
                    assert(g.order[j] == k);
                }
            }
            if previous.is_none() {
                assert forall|i: int| 0 <= i < o.order.len() implies o.order[i] != key by {
                    assert(o.nodes.contains_key(o.order[i]));
                }
                assert(g.order.no_duplicates());
            }
            assert forall|a: u64, b: u64| #[trigger] g.weights.contains_key((a, b)) implies {
                &&& g.weights.contains_key((b, a))
                &&& g.weights[(b, a)] == g.weights[(a, b)]
                &&& g.nodes.contains_key(a)
                &&& g.nodes.contains_key(b)
            } by {
                assert(o.weights.contains_key((a, b)));
            }
            assert forall|a: u64, b: u64| #[trigger] g.weights.contains_key((a, b)) implies a
                != b by {
                assert(o.weights.contains_key((a, b)));
            }
            assert forall|k: u64| #[trigger] g.nodes.contains_key(k) implies g.nodes[k].id == k
                && g.nodes[k].wf() by {
                if k != key {
                    assert(o.nodes.contains_key(k));
                }
            }
        }
    }

    /// The node stored under `key`, if any.
    pub fn get_node(&self, key: u64) -> (r: Option<&SimNode>)
        ensures
            match r {
                Some(n) => self@.nodes.contains_key(key) && *n == self@.nodes[key],
                None => !self@.nodes.contains_key(key),
            },
    {
        self.nodes.get(key)
    }

    /// The number of nodes.
    pub fn node_count(&self) -> (r: usize)
        requires
            self.wf(),
        ensures
            r == self@.order.len(),
            r == self@.nodes.dom().len(),
    {
        proof {
            let g = self@;
            assert(g.order.to_set() =~= g.nodes.dom());
            g.order.unique_seq_to_set();
        }
        self.order.len()
    }

    /// Every node, in the order the keys were first added.
    pub fn nodes(&self) -> (r: Vec<SimNode>)
        requires
            self.wf(),
        ensures
            r@ == self@.order.map_values(|k: u64| self@.nodes[k]),
    {
        let mut r: Vec<SimNode> = Vec::new();
        let mut i: usize = 0;
        while i < self.order.len()
            invariant
                self.wf(),
                i <= self.order@.len(),
                r@ == self@.order.take(i as int).map_values(|k: u64| self@.nodes[k]),
            decreases self.order@.len() - i,
        {
            let key = self.order[i];
            assert(self@.nodes.contains_key(self@.order[i as int]));
            let node = self.nodes.get(key);
            let n = *node.unwrap();
            r.push(n);
            i = i + 1;
            assert(self@.order.take(i as int).drop_last() =~= self@.order.take(i - 1));
            assert(r@ =~= self@.order.take(i as int).map_values(|k: u64| self@.nodes[k]));
        }
        assert(self@.order.take(i as int) =~= self@.order);
        r
    }

    /// Sets the weight between `from` and `to` in both directions and returns
    /// the weight the pair had before. A node paired with itself always has
    /// the default weight: then nothing is stored and `0` is returned.
    pub fn set_weight(&mut self, from: u64, to: u64, weight: i32) -> (r: i32)
        requires
            old(self).wf(),
            old(self)@.nodes.contains_key(from),
            old(self)@.nodes.contains_key(to),
        ensures
            final(self).wf(),
            r == old(self)@.weight(from, to),
            final(self)@.nodes == old(self)@.nodes,
            final(self)@.order == old(self)@.order,
            final(self)@.weights == if from == to {
                old(self)@.weights
            } else {
                old(self)@.weights.insert((from, to), weight).insert((to, from), weight)
            },
    {
        if from == to {
            return 0;
        }
        let previous = self.get_weight(from, to);
        self.weights.insert((from, to), weight);
        self.weights.insert((to, from), weight);
        proof {
            let g = self@;
            let o = old(self)@;
            if o.weights.contains_key((from, to)) {
                assert(o.weights.contains_key((to, from)));
            }
            assert forall|a: u64, b: u64| #[trigger] g.weights.contains_key((a, b)) implies {
                &&& g.weights.contains_key((b, a))
                &&& g.weights[(b, a)] == g.weights[(a, b)]
                &&& g.nodes.contains_key(a)
                &&& g.nodes.contains_key(b)
            } by {
                if (a, b) != (from, to) && (a, b) != (to, from) {
                    assert(o.weights.contains_key((a, b)));
                }
            }
        }
        previous
    }

    /// The weight between `from` and `to`; `0` for a pair whose weight was
    /// never set, also where a key is absent or `from == to`.
    pub fn get_weight(&self, from: u64, to: u64) -> (r: i32)
        ensures
            r == self@.weight(from, to),
    {
        if from == to {
            return 0;
        }
        match self.weights.get((from, to)) {
            Some(w) => w,
            None => 0,
        }
    }

    /// Every node other than `key`, in order, paired with its weight towards
    /// `key`.
    pub fn edges(&self, key: u64) -> (r: Vec<(SimNode, i32)>)
        requires
            self.wf(),
        ensures
            r@ == self@.edges(key),
    {
        let mut r: Vec<(SimNode, i32)> = Vec::new();
        let mut i: usize = 0;
        while i < self.order.len()
            invariant
                self.wf(),
                i <= self.order@.len(),
                r@ == edge_list(self@, key, self@.order.take(i as int)),
            decreases self.order@.len() - i,
        {
            let k = self.order[i];
            assert(self@.order.take(i + 1).drop_last() =~= self@.order.take(i as int));
            if k != key {
                assert(self@.nodes.contains_key(self@.order[i as int]));
                let node = *self.nodes.get(k).unwrap();
                let w = self.get_weight(key, k);
                r.push((node, w));
            }
            i = i + 1;
        }
        assert(self@.order.take(i as int) =~= self@.order);
        r
    }

    /// Removes the node stored under `key`, with every weight that involves
    /// it, and returns it; a missing key changes nothing.
    pub fn remove_node(&mut self, key: u64) -> (r: Option<SimNode>)
        requires
            old(self).wf(),
        ensures
            final(self).wf(),
            match r {
                Some(n) => old(self)@.nodes.contains_key(key) && n == old(self)@.nodes[key],
                None => !old(self)@.nodes.contains_key(key),
            },
            final(self)@.nodes == old(self)@.nodes.remove(key),
            final(self)@.weights == without_key(old(self)@.weights, key),
            !old(self)@.nodes.contains_key(key) ==> final(self)@ == old(self)@,
            old(self)@.nodes.contains_key(key) ==> exists|i: int|
                0 <= i < old(self)@.order.len() && old(self)@.order[i] == key && final(self)@.order
                    == old(self)@.order.remove(i),
    {
        let removed = self.nodes.remove(key);
        if removed.is_none() {
            proof {
                assert(self@.nodes =~= old(self)@.nodes);
                assert(self@.weights =~= without_key(old(self)@.weights, key)) by {
                    let o = old(self)@;
                    assert forall|p: (u64, u64)| o.weights.contains_key(p) implies p.0 != key
                        && p.1 != key by {
                        assert(o.weights.contains_key((p.0, p.1)));
                    }
                    assert(without_key(o.weights, key) =~= o.weights);
                }
            }
            return removed;
        }
        let ghost o = old(self)@;
        // Find the key's place in the order and take it out.
        let mut i: usize = 0;
        assert(o.order.contains(key));
        while i < self.order.len() && self.order[i] != key
            invariant
                self@.order == o.order,
                i <= o.order.len(),
                o.order.contains(key),
                forall|j: int| 0 <= j < i ==> o.order[j] != key,
            decreases o.order.len() - i,
        {
            i = i + 1;
        }
        assert(i < o.order.len()) by {
            if i == o.order.len() {
                let j = choose|j: int| 0 <= j < o.order.len() && o.order[j] == key;
                assert(o.order[j] != key);
            }
        }
        let ghost place = i as int;
        self.order.remove(i);
        proof {
            let g = self@;
            assert(g.order == o.order.remove(place));
            assert forall|a: int, b: int| 0 <= a < b < g.order.len() implies g.order[a]
                != g.order[b] by {
                if a < place && b >= place {
                    assert(g.order[b] == o.order[b + 1]);
                } else if a >= place {
                    assert(g.order[a] == o.order[a + 1]);
                    assert(g.order[b] == o.order[b + 1]);
                }
            }
            assert forall|j: int| 0 <= j < g.order.len() implies g.order[j] != key by {
                if j < place {
                } else {
                    assert(g.order[j] == o.order[j + 1]);
                }
            }
        }
        // Take out every weight that involves the key.
        let mut j: usize = 0;
        while j < self.order.len()
            invariant
                self@.order == o.order.remove(place),
                self@.nodes == o.nodes.remove(key),
                0 <= place < o.order.len(),
                o.order[place] == key,
                o.wf(),
                j <= self@.order.len(),
                forall|p: (u64, u64)| #[trigger]
                    self@.weights.contains_key(p) ==> o.weights.contains_key(p)
                        && self@.weights[p] == o.weights[p],
                forall|p: (u64, u64)|
                    #[trigger] o.weights.contains_key(p) && p.0 != key && p.1 != key
                        ==> self@.weights.contains_key(p),
                forall|m: int|
                    0 <= m < j ==> !self@.weights.contains_key((key, #[trigger] self@.order[m]))
                        && !self@.weights.contains_key((self@.order[m], key)),
            decreases self@.order.len() - j,
        {
            let other = self.order[j];
            let ghost before = self@.weights;
            self.weights.remove((key, other));
            self.weights.remove((other, key));
            proof {
                assert forall|p: (u64, u64)| #[trigger]
                    self@.weights.contains_key(p) implies o.weights.contains_key(p)
                    && self@.weights[p] == o.weights[p] by {
                    assert(before.contains_key(p));
                }
            }
            j = j + 1;
        }
        let ghost before = self@.weights;
        proof {
            let g = self@;
            assert forall|p: (u64, u64)| #[trigger]
                g.weights.contains_key(p) implies o.weights.contains_key(p) && g.weights[p]
                == o.weights[p] by {
                assert(before.contains_key(p));
            }
            assert forall|p: (u64, u64)| g.weights.contains_key(p) implies p.0 != key && p.1
                != key by {
                assert(o.weights.contains_key((p.0, p.1)));
                if p.0 == key && p.1 != key {
                    assert(o.nodes.contains_key(p.1));
                    assert(o.order.contains(p.1));
                    let m = choose|m: int| 0 <= m < o.order.len() && o.order[m] == p.1;
                    if m < place {
                        assert(g.order[m] == p.1);
                    } else {
                        assert(m != place);
                        assert(g.order[m - 1] == p.1);
                    }
                } else if p.1 == key && p.0 != key {
                    assert(o.nodes.contains_key(p.0));
                    assert(o.order.contains(p.0));
                    let m = choose|m: int| 0 <= m < o.order.len() && o.order[m] == p.0;
                    if m < place {
                        assert(g.order[m] == p.0);
                    } else {
                        assert(m != place);
                        assert(g.order[m - 1] == p.0);
                    }
                }
            }
            assert(g.weights =~= without_key(o.weights, key));
            assert forall|i: int| 0 <= i < g.order.len() implies g.nodes.contains_key(
                #[trigger] g.order[i],
            ) by {
                if i < place {
                    assert(o.nodes.contains_key(o.order[i]));
                } else {
                    assert(g.order[i] == o.order[i + 1]);
                    assert(o.nodes.contains_key(o.order[i + 1]));
                }
            }
            assert forall|k: u64| g.nodes.contains_key(k) implies g.order.contains(k) by {
                assert(o.nodes.contains_key(k));
                assert(o.order.contains(k));
                let m = choose|m: int| 0 <= m < o.order.len() && o.order[m] == k;
                if m < place {
                    assert(g.order[m] == k);
                } else {
                    assert(m != place);
                    assert(g.order[m - 1] == k);
                }
            }
            assert forall|k: u64| #[trigger] g.nodes.contains_key(k) implies g.nodes[k].id == k
                && g.nodes[k].wf() by {
                assert(o.nodes.contains_key(k));
            }
            assert forall|a: u64, b: u64| #[trigger] g.weights.contains_key((a, b)) implies {
                &&& g.weights.contains_key((b, a))
                &&& g.weights[(b, a)] == g.weights[(a, b)]
                &&& g.nodes.contains_key(a)
                &&& g.nodes.contains_key(b)
            } by {
                assert(o.weights.contains_key((a, b)));
            }
        }
        removed
    }
}

} // verus!
