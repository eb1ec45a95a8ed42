//! The two hash tables behind the graph, kept in `hashbrown` maps.
//!
//! Each table is a struct whose contents Verus sees only through a named map
//! and the contracts of the methods below.
use vstd::prelude::*;

use crate::layout::SimNode;

verus! {

/// Node values keyed by node id, in a `hashbrown::HashMap`.
#[verifier::external_body]
pub struct NodeTable {
    map: hashbrown::HashMap<u64, SimNode>,
}

/// The entries of a node table.
pub uninterp spec fn node_entries(t: NodeTable) -> Map<u64, SimNode>;

/// Edge weights keyed by ordered pairs of node ids, in a `hashbrown::HashMap`.
#[verifier::external_body]
pub struct WeightTable {
    map: hashbrown::HashMap<(u64, u64), i32>,
}

/// The entries of a weight table.
pub uninterp spec fn weight_entries(t: WeightTable) -> Map<(u64, u64), i32>;

impl NodeTable {
    /// Relies on `hashbrown::HashMap::new`: the map starts empty.
    #[verifier::external_body]
    pub(crate) fn new() -> (r: NodeTable)
        ensures
            forall|k: u64| !node_entries(r).contains_key(k),
    {
        NodeTable { map: hashbrown::HashMap::new() }
    }

    /// Relies on `hashbrown::HashMap::insert`: the entry for `k` becomes `v`,
    /// and the value it replaced, if any, is returned.
    #[verifier::external_body]
    pub(crate) fn insert(&mut self, k: u64, v: SimNode) -> (r: Option<SimNode>)
        ensures
            node_entries(*final(self)) == node_entries(*old(self)).insert(k, v),
            match r {
                Some(p) => node_entries(*old(self)).contains_key(k) && p == node_entries(
                    *old(self),
                )[k],
                None => !node_entries(*old(self)).contains_key(k),
            },
    {
        self.map.insert(k, v)
    }

    /// Relies on `hashbrown::HashMap::get`: the value stored for `k`, if any.
    #[verifier::external_body]
    pub(crate) fn get(&self, k: u64) -> (r: Option<&SimNode>)
        ensures
            match r {
                Some(v) => node_entries(*self).contains_key(k) && *v == node_entries(*self)[k],
                None => !node_entries(*self).contains_key(k),
            },
    {
        self.map.get(&k)
    }

    /// Relies on `hashbrown::HashMap::remove`: the entry for `k` leaves the map
    /// and its value is returned.
    #[verifier::external_body]
    pub(crate) fn remove(&mut self, k: u64) -> (r: Option<SimNode>)
        ensures
            node_entries(*final(self)) == node_entries(*old(self)).remove(k),
            match r {
                Some(v) => node_entries(*old(self)).contains_key(k) && v == node_entries(
                    *old(self),
                )[k],
                None => !node_entries(*old(self)).contains_key(k),
            },
    {
        self.map.remove(&k)
    }
}

impl WeightTable {
    /// Relies on `hashbrown::HashMap::new`: the map starts empty.
    #[verifier::external_body]
    pub(crate) fn new() -> (r: WeightTable)
        ensures
            forall|k: (u64, u64)| !weight_entries(r).contains_key(k),
    {
        WeightTable { map: hashbrown::HashMap::new() }
    }

    /// Relies on `hashbrown::HashMap::insert`: the entry for `k` becomes `v`,
    /// and the value it replaced, if any, is returned.
    #[verifier::external_body]
    pub(crate) fn insert(&mut self, k: (u64, u64), v: i32) -> (r: Option<i32>)
        ensures
            weight_entries(*final(self)) == weight_entries(*old(self)).insert(k, v),
            match r {
                Some(p) => weight_entries(*old(self)).contains_key(k) && p == weight_entries(
                    *old(self),
                )[k],
                None => !weight_entries(*old(self)).contains_key(k),
            },
    {
        self.map.insert(k, v)
    }

    /// Relies on `hashbrown::HashMap::get`: the value stored for `k`, if any.
    #[verifier::external_body]
    pub(crate) fn get(&self, k: (u64, u64)) -> (r: Option<i32>)
        ensures
            match r {
                Some(v) => weight_entries(*self).contains_key(k) && v == weight_entries(*self)[k],
                None => !weight_entries(*self).contains_key(k),
            },
    {
        self.map.get(&k).copied()
    }

    /// Relies on `hashbrown::HashMap::remove`: the entry for `k` leaves the map.
    #[verifier::external_body]
    pub(crate) fn remove(&mut self, k: (u64, u64)) -> (r: Option<i32>)
        ensures
            weight_entries(*final(self)) == weight_entries(*old(self)).remove(k),
            match r {
                Some(v) => weight_entries(*old(self)).contains_key(k) && v == weight_entries(
                    *old(self),
                )[k],
                None => !weight_entries(*old(self)).contains_key(k),
            },
    {
        self.map.remove(&k)
    }
}

} // verus!
